//! Ordering of messages by their date text.

use vstd::prelude::*;
use vstd::multiset::Multiset;
use crate::model::Email;
use crate::text::{lemma_text_le_total, lemma_text_le_transitive, text_le, text_less_or_equal};

verus! {

broadcast use vstd::seq_lib::group_to_multiset_ensures;

/// Messages in order of descending date text: each date is no earlier, in
/// lexicographic order, than any date after it.
pub open spec fn newest_first(v: Seq<Email>) -> bool {
    forall|i: int, j: int| 0 <= i < j < v.len() ==> text_le(#[trigger] v[j].date@, #[trigger] v[i].date@)
}

/// The same messages, newest first by date text.
pub fn sort_by_date_desc(v: Vec<Email>) -> (r: Vec<Email>)
    ensures
        newest_first(r@),
        r@.to_multiset() == v@.to_multiset(),
{
    let mut r: Vec<Email> = Vec::new();
    let mut v = v;
    let ghost orig = v@;
    let mut taken: usize = 0;
    let n = v.len();
    let mut rest: Vec<Email> = Vec::new();
    // Move the input into `rest` in reverse so that `pop` yields it in order.
    while v.len() > 0
        invariant
            v@.len() <= orig.len(),
            orig.to_multiset() == v@.to_multiset().add(rest@.to_multiset()),
            rest@ == orig.subrange(v@.len() as int, orig.len() as int).reverse(),
            v@ == orig.subrange(0, v@.len() as int),
            n == orig.len(),
        decreases v.len(),
    {
        let ghost before_v = v@;
        let ghost before_rest = rest@;
        let e = v.pop().unwrap();
        proof {
            assert(before_v == v@.push(e));
            assert(before_v.to_multiset() == v@.to_multiset().insert(e));
            assert(rest@.push(e).to_multiset() == rest@.to_multiset().insert(e));
            assert(v@ =~= orig.subrange(0, v@.len() as int));
            assert(orig.subrange(v@.len() as int, orig.len() as int).reverse() =~= before_rest.push(e));
        }
        rest.push(e);
    }
    assert(v@.to_multiset() =~= Multiset::empty());
    while rest.len() > 0
        invariant
            orig.to_multiset() == r@.to_multiset().add(rest@.to_multiset()),
            newest_first(r@),
        decreases rest.len(),
    {
        let ghost before_rest = rest@;
        let e = rest.pop().unwrap();
        proof {
            assert(before_rest == rest@.push(e));
        }
        let ghost old_r = r@;
        insert_by_date(&mut r, e);
        proof {
            let pos = choose|pos: int| 0 <= pos <= old_r.len() && r@ == old_r.insert(pos, e);
            assert(r@.to_multiset() == old_r.to_multiset().insert(e));
        }
    }
    assert(rest@.to_multiset() =~= Multiset::empty());
    assert(orig.to_multiset() =~= r@.to_multiset());
    r
}

/// Inserts `e` into messages that are newest first, after every message
/// whose date is no earlier than its date.
pub fn insert_by_date(v: &mut Vec<Email>, e: Email)
    requires
        newest_first(old(v)@),
    ensures
        newest_first(final(v)@),
        exists|pos: int| 0 <= pos <= old(v)@.len() && final(v)@ == old(v)@.insert(pos, e),
{
    let mut pos: usize = 0;
    while pos < v.len() && text_less_or_equal(e.date.as_str(), v[pos].date.as_str())
        invariant
            pos <= v@.len(),
            forall|k: int| 0 <= k < pos ==> text_le(e.date@, #[trigger] v@[k].date@),
        decreases v@.len() - pos,
    {
        pos = pos + 1;
    }
    let ghost old_v = v@;
    proof {
        if pos < old_v.len() {
            assert(!text_le(e.date@, old_v[pos as int].date@));
            lemma_text_le_total(e.date@, old_v[pos as int].date@);
            assert forall|k: int| pos <= k < old_v.len() implies text_le(#[trigger] old_v[k].date@, e.date@) by {
                if k > pos {
                    lemma_text_le_transitive(old_v[k].date@, old_v[pos as int].date@, e.date@);
                }
            }
        }
    }
    v.insert(pos, e);
    proof {
        assert(v@ == old_v.insert(pos as int, e));
        assert forall|i: int, j: int| 0 <= i < j < v@.len() implies text_le(
            #[trigger] v@[j].date@,
            #[trigger] v@[i].date@,
        ) by {
            if i < pos && j == pos {
            } else if i < pos && j > pos {
                assert(v@[j] == old_v[j - 1]);
            } else if i == pos {
                assert(v@[j] == old_v[j - 1]);
            } else if j < pos {
            } else {
                assert(v@[j] == old_v[j - 1]);
                assert(v@[i] == old_v[i - 1]);
            }
        }
    }
}

} // verus!
