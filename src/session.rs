//! The session's record set as the recorder's insertions shape it: one text
//! column under a uniqueness constraint, so the rows form a set of paths.
use vstd::prelude::*;
use vstd::utf8::{decode_utf8, valid_utf8};
use crate::filter::path_allowed;
use crate::record::{recorded_path, store_table};

verus! {

/// The session's rows after one intercepted call on `raw`, the store holding
/// `rows`: the recorded path is inserted, and where it is already there the
/// uniqueness constraint turns the insertion away and the rows stay as they were.
pub open spec fn rows_after(rows: Set<Seq<char>>, binding: Option<Seq<char>>, raw: Seq<u8>) -> Set<
    Seq<char>,
> {
    match recorded_path(binding, raw) {
        Some(p) => rows.insert(p),
        None => rows,
    }
}

/// The session's rows after intercepted calls on each path of `calls`, in order.
pub open spec fn rows_after_calls(
    rows: Set<Seq<char>>,
    binding: Option<Seq<char>>,
    calls: Seq<Seq<u8>>,
) -> Set<Seq<char>>
    decreases calls.len(),
{
    if calls.len() == 0 {
        rows
    } else {
        rows_after(rows_after_calls(rows, binding, calls.drop_last()), binding, calls.last())
    }
}

/// A path that is recorded at all: valid UTF-8 that no deny rule matches.
pub open spec fn recordable(raw: Seq<u8>) -> bool {
    valid_utf8(raw) && path_allowed(raw)
}

/// Recording the same allowed path twice in one session leaves exactly one row.
pub proof fn lemma_record_twice_one_row(binding: Seq<char>, raw: Seq<u8>)
    requires
        store_table(binding) is Some,
        recordable(raw),
    ensures
        rows_after(rows_after(Set::empty(), Some(binding), raw), Some(binding), raw) == set![
            decode_utf8(raw),
        ],
        rows_after(rows_after(Set::empty(), Some(binding), raw), Some(binding), raw).len() == 1,
{
    let once = rows_after(Set::empty(), Some(binding), raw);
    assert(once =~= set![decode_utf8(raw)]);
    assert(once.insert(decode_utf8(raw)) =~= once);
    assert(set![decode_utf8(raw)].len() == 1) by {
        assert(Set::<Seq<char>>::empty().insert(decode_utf8(raw)).len() == 1);
    }
}

/// Where the store's location is absent, no call adds a row.
pub proof fn lemma_no_binding_no_rows(rows: Set<Seq<char>>, calls: Seq<Seq<u8>>)
    ensures
        rows_after_calls(rows, None, calls) == rows,
    decreases calls.len(),
{
    if calls.len() > 0 {
        lemma_no_binding_no_rows(rows, calls.drop_last());
    }
}

/// Calls on recordable paths leave the rows that were there and the text of
/// each path called on, and nothing else.
pub proof fn lemma_rows_are_paths_called(
    rows: Set<Seq<char>>,
    binding: Seq<char>,
    calls: Seq<Seq<u8>>,
)
    requires
        store_table(binding) is Some,
        forall|i: int| 0 <= i < calls.len() ==> recordable(#[trigger] calls[i]),
    ensures
        rows_after_calls(rows, Some(binding), calls) == rows + calls.map_values(
            |r: Seq<u8>| decode_utf8(r),
        ).to_set(),
    decreases calls.len(),
{
    let texts = calls.map_values(|r: Seq<u8>| decode_utf8(r));
    if calls.len() == 0 {
        assert(texts.to_set() =~= Set::empty());
        assert(rows + Set::empty() =~= rows);
    } else {
        let init = calls.drop_last();
        assert forall|i: int| 0 <= i < init.len() implies recordable(#[trigger] init[i]) by {
            assert(init[i] == calls[i]);
        }
        lemma_rows_are_paths_called(rows, binding, init);
        let init_texts = init.map_values(|r: Seq<u8>| decode_utf8(r));
        assert(recordable(calls[calls.len() - 1]));
        assert(texts =~= init_texts.push(decode_utf8(calls.last())));
        assert(texts.to_set() =~= init_texts.to_set().insert(decode_utf8(calls.last()))) by {
            assert forall|e: Seq<char>| texts.to_set().contains(e) implies init_texts.to_set().insert(
                decode_utf8(calls.last()),
            ).contains(e) by {
                let i = choose|i: int| 0 <= i < texts.len() && texts[i] == e;
                if i < init_texts.len() {
                    assert(init_texts[i] == e);
                }
            }
            assert forall|e: Seq<char>| init_texts.to_set().insert(
                decode_utf8(calls.last()),
            ).contains(e) implies texts.to_set().contains(e) by {
                if e == decode_utf8(calls.last()) {
                    assert(texts[texts.len() - 1] == e);
                } else {
                    let i = choose|i: int| 0 <= i < init_texts.len() && init_texts[i] == e;
                    assert(texts[i] == e);
                }
            }
        }
        assert((rows + init_texts.to_set()).insert(decode_utf8(calls.last())) =~= rows
            + texts.to_set());
    }
}

/// A run that opens `distinct` files, each once, then re-opens files that it
/// has already opened, leaves exactly one row per distinct file.
pub proof fn lemma_rows_count_distinct_files(
    binding: Seq<char>,
    distinct: Seq<Seq<u8>>,
    reopens: Seq<Seq<u8>>,
)
    requires
        store_table(binding) is Some,
        forall|i: int| 0 <= i < distinct.len() ==> recordable(#[trigger] distinct[i]),
        distinct.map_values(|r: Seq<u8>| decode_utf8(r)).no_duplicates(),
        forall|j: int| 0 <= j < reopens.len() ==> distinct.contains(#[trigger] reopens[j]),
    ensures
        rows_after_calls(Set::empty(), Some(binding), distinct + reopens) == distinct.map_values(
            |r: Seq<u8>| decode_utf8(r),
        ).to_set(),
        rows_after_calls(Set::empty(), Some(binding), distinct + reopens).len() == distinct.len(),
{
    let calls = distinct + reopens;
    let texts = calls.map_values(|r: Seq<u8>| decode_utf8(r));
    let distinct_texts = distinct.map_values(|r: Seq<u8>| decode_utf8(r));
    assert forall|i: int| 0 <= i < calls.len() implies recordable(#[trigger] calls[i]) by {
        if i < distinct.len() {
            assert(calls[i] == distinct[i]);
        } else {
            assert(calls[i] == reopens[i - distinct.len()]);
            let k = choose|k: int| 0 <= k < distinct.len() && distinct[k] == reopens[i
                - distinct.len()];
            assert(recordable(distinct[k]));
        }
    }
    lemma_rows_are_paths_called(Set::empty(), binding, calls);
    assert(texts.to_set() =~= distinct_texts.to_set()) by {
        assert forall|e: Seq<char>| texts.to_set().contains(e) implies distinct_texts.to_set().contains(
            e,
        ) by {
            let i = choose|i: int| 0 <= i < texts.len() && texts[i] == e;
            if i < distinct.len() {
                assert(calls[i] == distinct[i]);
                assert(distinct_texts[i] == e);
            } else {
                assert(calls[i] == reopens[i - distinct.len()]);
                let k = choose|k: int| 0 <= k < distinct.len() && distinct[k] == reopens[i
                    - distinct.len()];
                assert(distinct_texts[k] == e);
            }
        }
        assert forall|e: Seq<char>| distinct_texts.to_set().contains(e) implies texts.to_set().contains(
            e,
        ) by {
            let i = choose|i: int| 0 <= i < distinct_texts.len() && distinct_texts[i] == e;
            assert(calls[i] == distinct[i]);
            assert(texts[i] == e);
        }
    }
    assert(Set::<Seq<char>>::empty() + texts.to_set() =~= texts.to_set());
    distinct_texts.unique_seq_to_set();
}

/// Calls on recordable paths, in any order and with any repeats, leave as many
/// rows as there are distinct paths among them.
pub proof fn lemma_rows_count_distinct_paths(binding: Seq<char>, calls: Seq<Seq<u8>>)
    requires
        store_table(binding) is Some,
        forall|i: int| 0 <= i < calls.len() ==> recordable(#[trigger] calls[i]),
    ensures
        rows_after_calls(Set::empty(), Some(binding), calls).len() == calls.map_values(
            |r: Seq<u8>| decode_utf8(r),
        ).to_set().len(),
{
    let texts = calls.map_values(|r: Seq<u8>| decode_utf8(r));
    lemma_rows_are_paths_called(Set::empty(), binding, calls);
    assert(Set::<Seq<char>>::empty() + texts.to_set() =~= texts.to_set());
}

} // verus!
