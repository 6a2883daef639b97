//! What holds of the operations taken together.

use crate::handler::{
    accepted, append_outcome, first_unreadable, item_line, keeps, kept_lines, pruned, record_id,
    rejected, unreadable, written_lines, ErrorView,
};
use crate::snowflake::{age_secs, retained, timestamp_secs, MAX_AGE_SECS};
use crate::text::{
    is_first_where, join, lemma_first_where, lemma_first_where_unique,
    lemma_join_add, lemma_lines_append, lemma_lines_join, lemma_lines_single, lines, single_line,
    single_lines, terminated,
};
use serde_json::{Error, Value};
use vstd::prelude::*;

verus! {

/// A record whose age is exactly the retention window is pruned, and one
/// that is a second younger is kept.
pub proof fn law_age_boundary(id: u64, now: u64)
    ensures
        age_secs(id, now) == MAX_AGE_SECS ==> !retained(id, now),
        age_secs(id, now) == MAX_AGE_SECS - 1 ==> retained(id, now),
        retained(id, now) <==> now < timestamp_secs(id) + MAX_AGE_SECS,
{
}

/// A record that is pruned at one time is pruned at every later time.
pub proof fn law_retention_ends(id: u64, earlier: u64, later: u64)
    requires
        earlier <= later,
        !retained(id, earlier),
    ensures
        !retained(id, later),
{
}

/// The lines that `places` picks from `whole`, at places that grow from one
/// to the next, are the lines of `part`.
pub open spec fn picked_in_order(part: Seq<Seq<u8>>, whole: Seq<Seq<u8>>, places: Seq<int>) -> bool {
    &&& places.len() == part.len()
    &&& forall|k: int| 0 <= k < places.len() ==> 0 <= #[trigger] places[k] < whole.len()
    &&& forall|j: int, k: int| 0 <= j < k < places.len() ==> places[j] < places[k]
    &&& forall|k: int| 0 <= k < places.len() ==> part[k] == whole[#[trigger] places[k]]
}

/// The lines that are kept at a time stand, unchanged, at growing places
/// among the lines they were chosen from, and every one of them is a line
/// that is kept.
pub proof fn lemma_kept_in_order(ls: Seq<Seq<u8>>, now: u64) -> (places: Seq<int>)
    ensures
        picked_in_order(kept_lines(ls, now), ls, places),
        forall|k: int| 0 <= k < places.len() ==> keeps(now)(ls[#[trigger] places[k]]),
        forall|i: int|
            0 <= i < ls.len() && keeps(now)(ls[i]) ==> exists|k: int|
                0 <= k < places.len() && #[trigger] places[k] == i,
    decreases ls.len(),
{
    reveal(Seq::filter);
    if ls.len() == 0 {
        Seq::empty()
    } else {
        let front = lemma_kept_in_order(ls.drop_last(), now);
        let last = ls.len() - 1;
        let places = if keeps(now)(ls.last()) {
            front.push(last)
        } else {
            front
        };
        assert forall|k: int| 0 <= k < places.len() implies kept_lines(ls, now)[k]
            == ls[#[trigger] places[k]] && keeps(now)(ls[places[k]]) by {
            if k < front.len() {
                assert(ls.drop_last()[front[k]] == ls[front[k]]);
            }
        }
        assert forall|i: int| 0 <= i < ls.len() && keeps(now)(ls[i]) implies exists|k: int|
            0 <= k < places.len() && #[trigger] places[k] == i by {
            if i < last {
                assert(ls.drop_last()[i] == ls[i]);
                let k = choose|k: int| 0 <= k < front.len() && #[trigger] front[k] == i;
                assert(places[k] == i);
            } else {
                assert(places[places.len() - 1] == i);
            }
        }
        places
    }
}

/// A prune that succeeds leaves a terminated log whose lines are the kept
/// lines of the log before it.
pub proof fn law_prune_lines(text: Seq<u8>, now: u64)
    requires
        pruned(text, now) is Ok,
    ensures
        terminated(pruned(text, now)->Ok_0),
        lines(pruned(text, now)->Ok_0) == kept_lines(lines(text), now),
        lines(pruned(text, now)->Ok_0).len() <= lines(text).len(),
{
    let ls = lines(text);
    let kept = kept_lines(ls, now);
    let places = lemma_kept_in_order(ls, now);
    lemma_lines_single(text);
    assert(single_lines(kept)) by {
        assert forall|k: int| 0 <= k < kept.len() implies single_line(#[trigger] kept[k]) by {
            assert(kept[k] == ls[places[k]]);
        }
    }
    lemma_lines_join(kept);
    ls.lemma_filter_len(keeps(now));
}

/// A prune never reorders the lines that it keeps: they stand in the new
/// log in the order, and with the text, that they had in the old one, and
/// a line is kept if and only if its record is young enough.
pub proof fn law_prune_keeps_order(text: Seq<u8>, now: u64)
    requires
        pruned(text, now) is Ok,
    ensures
        exists|places: Seq<int>|
            {
                &&& picked_in_order(lines(pruned(text, now)->Ok_0), lines(text), places)
                &&& forall|i: int|
                    0 <= i < lines(text).len() ==> (keeps(now)(#[trigger] lines(text)[i])
                        <==> places.contains(i))
            },
{
    law_prune_lines(text, now);
    let ls = lines(text);
    let places = lemma_kept_in_order(ls, now);
    assert forall|i: int| 0 <= i < ls.len() implies (keeps(now)(#[trigger] ls[i])
        <==> places.contains(i)) by {
        if keeps(now)(ls[i]) {
            let k = choose|k: int| 0 <= k < places.len() && #[trigger] places[k] == i;
            assert(places[k] == i);
        }
        if places.contains(i) {
            let k = choose|k: int| 0 <= k < places.len() && places[k] == i;
            assert(keeps(now)(ls[places[k]]));
        }
    }
    assert(picked_in_order(lines(pruned(text, now)->Ok_0), lines(text), places));
}

/// Filtering by a test that every element passes changes nothing.
proof fn lemma_filter_all<T>(s: Seq<T>, p: spec_fn(T) -> bool)
    requires
        forall|i: int| 0 <= i < s.len() ==> p(#[trigger] s[i]),
    ensures
        s.filter(p) == s,
    decreases s.len(),
{
    reveal(Seq::filter);
    if s.len() != 0 {
        assert forall|i: int| 0 <= i < s.drop_last().len() implies p(#[trigger] s.drop_last()[i]) by {
            assert(s.drop_last()[i] == s[i]);
        }
        lemma_filter_all(s.drop_last(), p);
        assert(s.drop_last().push(s.last()) =~= s);
    }
}

/// Pruning twice at the same time is pruning once: a second prune of what
/// the first one left succeeds and changes nothing.
pub proof fn law_prune_idempotent(text: Seq<u8>, now: u64)
    requires
        pruned(text, now) is Ok,
    ensures
        pruned(pruned(text, now)->Ok_0, now) == pruned(text, now),
{
    let ls = lines(text);
    let kept = kept_lines(ls, now);
    let once = pruned(text, now)->Ok_0;
    law_prune_lines(text, now);
    assert(lines(once) == kept);
    assert forall|k: int| 0 <= k < kept.len() implies keeps(now)(#[trigger] kept[k]) by {
        ls.lemma_filter_pred(keeps(now), k);
    }
    assert(is_first_where(kept, unreadable(), kept.len() as int)) by {
        assert forall|k: int| 0 <= k < kept.len() implies !unreadable()(#[trigger] kept[k]) by {
            assert(keeps(now)(kept[k]));
        }
    }
    lemma_first_where_unique(kept, unreadable(), kept.len() as int);
    lemma_filter_all(kept, keeps(now));
    assert(kept_lines(kept, now) == kept);
}

/// A prune succeeds if and only if every line of the log carries an
/// identifier, whatever the time.
pub proof fn law_prune_all_or_nothing(text: Seq<u8>, now: u64)
    ensures
        pruned(text, now) is Ok <==> forall|i: int|
            0 <= i < lines(text).len() ==> record_id(#[trigger] lines(text)[i]) is Ok,
{
    let ls = lines(text);
    lemma_first_where(ls, unreadable());
    let bad = first_unreadable(ls) as int;
    if bad >= ls.len() {
        assert forall|i: int| 0 <= i < ls.len() implies record_id(#[trigger] ls[i]) is Ok by {
            assert(!unreadable()(ls[i]));
        }
    } else {
        assert(unreadable()(ls[bad]));
        assert(record_id(ls[bad]) is Err);
    }
}

/// Appending lines to a terminated log leaves a terminated log that has
/// exactly that many lines more: the old ones, then the new ones in order.
pub proof fn law_append_adds_lines(before: Seq<u8>, written: Seq<Seq<u8>>)
    requires
        terminated(before),
        single_lines(written),
    ensures
        terminated(before + join(written)),
        lines(before + join(written)) == lines(before) + written,
        lines(before + join(written)).len() == lines(before).len() + written.len(),
{
    lemma_lines_append(before, written);
    if join(written).len() > 0 {
        assert((before + join(written)).last() == join(written).last());
    } else {
        assert(before + join(written) =~= before);
    }
}

/// An append whose items are all accepted writes one line for each of
/// them and ends well.
pub proof fn law_append_all(items: Seq<Result<Value, Error>>)
    requires
        forall|i: int| 0 <= i < items.len() ==> item_line(#[trigger] items[i]) is Ok,
    ensures
        written_lines(items).len() == items.len(),
        append_outcome(items) is Ok,
{
    assert(is_first_where(items, rejected(), items.len() as int));
    lemma_first_where_unique(items, rejected(), items.len() as int);
}

/// An append whose first item failed to parse writes nothing and ends with
/// `InvalidJson`; one that failed later leaves only the lines of the items
/// before the fault.
pub proof fn law_append_stops_at_fault(items: Seq<Result<Value, Error>>, fault: int)
    requires
        0 <= fault < items.len(),
        items[fault] is Err,
        forall|i: int| 0 <= i < fault ==> item_line(#[trigger] items[i]) is Ok,
    ensures
        written_lines(items).len() == fault,
        append_outcome(items) == Err::<(), ErrorView>(ErrorView::InvalidJson),
        fault == 0 ==> join(written_lines(items)) == Seq::<u8>::empty(),
{
    assert(is_first_where(items, rejected(), fault));
    lemma_first_where_unique(items, rejected(), fault);
    assert(accepted(items) == fault);
}

/// The log that appends leave when they run one after another, each
/// writing one line of `ls`, on a log that starts as `text`.
pub open spec fn appended_in_turn(text: Seq<u8>, ls: Seq<Seq<u8>>) -> Seq<u8>
    decreases ls.len(),
{
    if ls.len() == 0 {
        text
    } else {
        appended_in_turn(text, ls.drop_last()) + join(seq![ls.last()])
    }
}

/// Appends that run one after another on an empty log, each writing one
/// line, leave as many lines as there were appends, each line whole and in
/// the order in which the appends ran.
pub proof fn law_appends_in_turn(ls: Seq<Seq<u8>>)
    requires
        single_lines(ls),
    ensures
        appended_in_turn(Seq::empty(), ls) == join(ls),
        lines(appended_in_turn(Seq::empty(), ls)) == ls,
    decreases ls.len(),
{
    if ls.len() == 0 {
    } else {
        let front = ls.drop_last();
        assert(single_lines(front)) by {
            assert forall|i: int| 0 <= i < front.len() implies single_line(#[trigger] front[i]) by {
                assert(front[i] == ls[i]);
            }
        }
        law_appends_in_turn(front);
        lemma_join_add(front, seq![ls.last()]);
        assert(front + seq![ls.last()] =~= ls);
    }
    lemma_lines_join(ls);
}

} // verus!
