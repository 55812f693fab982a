//! What holds of every check and of every valid proof.

use crate::checker::{
    all_valid, context_before, failures, record_valid, CheckUpView, ProofView,
};
use crate::record::{RecordView, Statement};
use vstd::prelude::*;

verus! {

/// Checking again a proof that has not changed gives the same outcome.
pub proof fn lemma_check_again(p: ProofView)
    ensures
        p.check().check() == p.check(),
{
}

/// Checking again up to the same position gives the same outcome.
pub proof fn lemma_check_up_to_again(p: ProofView, id: int)
    ensures
        p.check_up_to(id).check_up_to(id) == p.check_up_to(id),
{
}

/// The outcome of a check is that of its records: what an earlier check
/// had found does not matter.
pub proof fn lemma_check_forgets(p: ProofView, q: ProofView, id: int)
    requires
        p.records == q.records,
    ensures
        p.check_up_to(id) == q.check_up_to(id),
        p.records.len() > 0 ==> p.check() == q.check(),
{
}

/// The failures among fewer records are among the failures among more.
pub proof fn lemma_failures_grow(records: Seq<RecordView>, n: int, m: int)
    requires
        n <= m,
    ensures
        failures(records, n).is_prefix_of(failures(records, m)),
    decreases m - n,
{
    if n < m {
        lemma_failures_grow(records, n, m - 1);
        let shorter = failures(records, m - 1);
        let longer = failures(records, m);
        assert(shorter.is_prefix_of(longer)) by {
            assert(shorter =~= longer.subrange(0, shorter.len() as int));
        }
        let first = failures(records, n);
        assert(first =~= longer.subrange(0, first.len() as int)) by {
            assert(first =~= shorter.subrange(0, first.len() as int));
        }
    } else {
        let all = failures(records, n);
        assert(all =~= all.subrange(0, all.len() as int));
    }
}

/// If a check up to a position finds no error, a check up to an earlier
/// position finds none either: it says that the proof is valid until the
/// record after that position.
pub proof fn lemma_no_error_before(p: ProofView, id: int, earlier: int)
    requires
        0 <= earlier < id < p.records.len(),
        !(p.check_up_to(id).state is SemanticErrors),
    ensures
        p.check_up_to(earlier).state == CheckUpView::ValidUntil((earlier + 1) as usize),
{
    lemma_failures_grow(p.records, earlier + 1, id + 1);
}

/// Whether the terms of a context increase strictly.
pub open spec fn increasing(ctxt: Seq<usize>) -> bool {
    forall|a: int, b: int| 0 <= a < b < ctxt.len() ==> ctxt[a] < ctxt[b]
}

/// The hypotheses that are open after the first `n` records, found by
/// walking through them: a hypothesis opens itself, a discharge closes the
/// one opened last, and a plain statement changes nothing.
pub open spec fn open_hypotheses(records: Seq<RecordView>, n: int) -> Seq<usize>
    decreases n,
{
    if n <= 0 {
        Seq::empty()
    } else {
        let before = open_hypotheses(records, n - 1);
        match records[n - 1].stmt {
            Statement::Supposons(_) => before.push(records[n - 1].id),
            Statement::Donc(_) => before.drop_last(),
            Statement::Simple(_) => before,
        }
    }
}

/// Where the first `n` records are legitimate steps, the context of the
/// last of them is the sequence of the hypotheses that are open after it;
/// these are earlier positions, in increasing order.
pub proof fn lemma_open_hypotheses(records: Seq<RecordView>, n: int)
    requires
        0 <= n <= records.len(),
        all_valid(records, n),
    ensures
        context_before(records, n) == open_hypotheses(records, n),
        increasing(open_hypotheses(records, n)),
        forall|k: int|
            0 <= k < open_hypotheses(records, n).len() ==> (#[trigger] open_hypotheses(
                records,
                n,
            )[k]) < n,
    decreases n,
{
    if n > 0 {
        assert(all_valid(records, n - 1)) by {
            assert forall|i: int| 0 <= i < n - 1 implies record_valid(records, i) by {}
        }
        lemma_open_hypotheses(records, n - 1);
        assert(record_valid(records, n - 1));
        let before = open_hypotheses(records, n - 1);
        let now = open_hypotheses(records, n);
        match records[n - 1].stmt {
            Statement::Supposons(_) => {},
            Statement::Donc(_) => {
                assert(records[n - 1].ctxt =~= before.drop_last());
            },
            Statement::Simple(_) => {},
        }
    }
}

/// In a valid proof, the context of every record increases strictly, and
/// its terms are at most the id of the record; they are less than the id
/// but for a hypothesis, whose own id is the last term of its context.
pub proof fn lemma_valid_context(records: Seq<RecordView>, i: int)
    requires
        all_valid(records, records.len() as int),
        0 <= i < records.len(),
    ensures
        increasing(records[i].ctxt),
        records[i].ctxt == open_hypotheses(records, i + 1),
        forall|k: int|
            0 <= k < records[i].ctxt.len() ==> (#[trigger] records[i].ctxt[k]) <= records[i].id,
        !(records[i].stmt is Supposons) ==> forall|k: int|
            0 <= k < records[i].ctxt.len() ==> (#[trigger] records[i].ctxt[k]) < records[i].id,
{
    assert(all_valid(records, i + 1)) by {
        assert forall|j: int| 0 <= j < i + 1 implies record_valid(records, j) by {}
    }
    assert(all_valid(records, i)) by {
        assert forall|j: int| 0 <= j < i implies record_valid(records, j) by {}
    }
    lemma_open_hypotheses(records, i + 1);
    lemma_open_hypotheses(records, i);
    assert(record_valid(records, i));
    if !(records[i].stmt is Supposons) {
        let before = open_hypotheses(records, i);
        assert forall|k: int| 0 <= k < records[i].ctxt.len() implies (
        #[trigger] records[i].ctxt[k]) < records[i].id by {
            assert(records[i].ctxt[k] == before[k]);
        }
    }
}

} // verus!
