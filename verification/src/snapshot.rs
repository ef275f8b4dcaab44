//! The configuration snapshot as a mathematical mapping from layer key to
//! layer parameters, what the store's operations do to it, and what follows.

use crate::layer::{default_layer, layer_on_channel, layer_with_opacity, LayerView, DEFAULT_FADE_MS};
use vstd::prelude::*;

verus! {

/// A snapshot: layer parameters by layer key.
pub type Snapshot = Map<Seq<char>, LayerView>;

/// A layer with its key.
pub type Record = (Seq<char>, LayerView);

/// The snapshot that a fresh store starts from: layers "A", "B" and "C" on
/// MIDI channels 14, 15 and 16, each otherwise default.
pub open spec fn default_snapshot() -> Snapshot {
    Map::empty().insert(seq!['A'], layer_on_channel(14)).insert(
        seq!['B'],
        layer_on_channel(15),
    ).insert(seq!['C'], layer_on_channel(16))
}

/// The layer that `key` stands for before any opacity is set: the layer it
/// has, or the default layer where it has none.
pub open spec fn layer_or_default(snapshot: Snapshot, key: Seq<char>) -> LayerView {
    if snapshot.dom().contains(key) {
        snapshot[key]
    } else {
        default_layer()
    }
}

/// The snapshot after the opacity of `key` was set: an existing layer keeps
/// its other fields, an unknown key gets a default layer with that opacity.
pub open spec fn with_opacity(
    snapshot: Snapshot,
    key: Seq<char>,
    opacity_bits: u32,
) -> Snapshot {
    if snapshot.dom().contains(key) {
        snapshot.insert(key, LayerView { opacity_bits, ..snapshot[key] })
    } else {
        snapshot.insert(key, layer_with_opacity(opacity_bits))
    }
}

/// Setting an opacity touches one key and one field: every other key is in
/// the snapshot exactly if it was, with the layer it had, and the key itself
/// is in it afterwards with the new opacity and, in every other field, what
/// it held before (the defaults, if it was unknown).
pub proof fn lemma_set_opacity_frame(
    snapshot: Snapshot,
    key: Seq<char>,
    opacity_bits: u32,
)
    ensures
        with_opacity(snapshot, key, opacity_bits).dom() == snapshot.dom().insert(key),
        with_opacity(snapshot, key, opacity_bits)[key] == (LayerView {
            opacity_bits,
            ..layer_or_default(snapshot, key)
        }),
        forall|other: Seq<char>|
            other != key && snapshot.dom().contains(other) ==> #[trigger] with_opacity(
                snapshot,
                key,
                opacity_bits,
            )[other] == snapshot[other],
{
    assert(with_opacity(snapshot, key, opacity_bits).dom() =~= snapshot.dom().insert(key));
}

/// Setting the opacity of an unknown key inserts a layer with that opacity,
/// the default fade, no thumbnail and MIDI channel zero.
pub proof fn lemma_unknown_key_gets_defaults(
    snapshot: Snapshot,
    key: Seq<char>,
    opacity_bits: u32,
)
    requires
        !snapshot.dom().contains(key),
    ensures
        with_opacity(snapshot, key, opacity_bits) == snapshot.insert(
            key,
            LayerView {
                opacity_bits,
                fade_ms: DEFAULT_FADE_MS,
                thumbnail: Seq::empty(),
                midi_channel: 0,
            },
        ),
{
}

/// One request to set a layer's opacity: the key and the opacity's bits.
pub struct OpacityCall {
    pub key: Seq<char>,
    pub opacity_bits: u32,
}

/// The snapshot after every call of `calls` was applied, first to last.
pub open spec fn after_calls(
    snapshot: Snapshot,
    calls: Seq<OpacityCall>,
) -> Snapshot
    decreases calls.len(),
{
    if calls.len() == 0 {
        snapshot
    } else {
        with_opacity(
            after_calls(snapshot, calls.drop_last()),
            calls.last().key,
            calls.last().opacity_bits,
        )
    }
}

/// Whether `at` is the place of the last call of `calls` that names `key`.
pub open spec fn is_last_call_for(calls: Seq<OpacityCall>, key: Seq<char>, at: int) -> bool {
    &&& 0 <= at < calls.len()
    &&& calls[at].key == key
    &&& forall|later: int| at < later < calls.len() ==> (#[trigger] calls[later]).key != key
}

/// Whether no call of `calls` names `key`.
pub open spec fn never_called_for(calls: Seq<OpacityCall>, key: Seq<char>) -> bool {
    forall|at: int| 0 <= at < calls.len() ==> (#[trigger] calls[at]).key != key
}

/// Among calls of which some name `key`, one is the last to do so.
pub proof fn lemma_last_call_exists(calls: Seq<OpacityCall>, key: Seq<char>)
    requires
        !never_called_for(calls, key),
    ensures
        exists|at: int| is_last_call_for(calls, key, at),
    decreases calls.len(),
{
    let last = calls.len() - 1;
    if calls[last].key == key {
        assert(is_last_call_for(calls, key, last));
    } else {
        let front = calls.drop_last();
        assert(!never_called_for(front, key)) by {
            let named = choose|at: int| 0 <= at < calls.len() && (#[trigger] calls[at]).key == key;
            assert(front[named].key == key);
        }
        lemma_last_call_exists(front, key);
        let at = choose|at: int| is_last_call_for(front, key, at);
        assert(is_last_call_for(calls, key, at)) by {
            assert forall|later: int| at < later < calls.len() implies (#[trigger] calls[later]).key
                != key by {
                if later < front.len() {
                    assert(front[later].key != key);
                }
            }
        }
    }
}

/// After any sequence of calls, a key that some call named has the opacity
/// of the last call that named it and, in every other field, what it held
/// before the first call (the defaults, if it was unknown).
pub proof fn lemma_last_opacity_wins(
    snapshot: Snapshot,
    calls: Seq<OpacityCall>,
    key: Seq<char>,
    at: int,
)
    requires
        is_last_call_for(calls, key, at),
    ensures
        after_calls(snapshot, calls).dom().contains(key),
        after_calls(snapshot, calls)[key] == (LayerView {
            opacity_bits: calls[at].opacity_bits,
            ..layer_or_default(snapshot, key)
        }),
    decreases calls.len(),
{
    let front = calls.drop_last();
    if at == calls.len() - 1 {
        lemma_other_fields_kept(snapshot, front);
        let before = after_calls(snapshot, front);
        if before.dom().contains(key) {
            assert(same_but_opacity(before[key], layer_or_default(snapshot, key)));
        }
    } else {
        assert(is_last_call_for(front, key, at)) by {
            assert forall|later: int| at < later < front.len() implies (#[trigger] front[later]).key
                != key by {
                assert(calls[later].key != key);
            }
        }
        lemma_last_opacity_wins(snapshot, front, key, at);
        assert(calls[calls.len() - 1].key != key);
    }
}

/// After any sequence of calls, a key that no call named is in the snapshot
/// exactly if it was before, with the layer it had.
pub proof fn lemma_uncalled_key_untouched(
    snapshot: Snapshot,
    calls: Seq<OpacityCall>,
    key: Seq<char>,
)
    requires
        never_called_for(calls, key),
    ensures
        after_calls(snapshot, calls).dom().contains(key) == snapshot.dom().contains(key),
        snapshot.dom().contains(key) ==> after_calls(snapshot, calls)[key] == snapshot[key],
    decreases calls.len(),
{
    if calls.len() > 0 {
        let front = calls.drop_last();
        assert(never_called_for(front, key)) by {
            assert forall|at: int| 0 <= at < front.len() implies (#[trigger] front[at]).key
                != key by {
                assert(calls[at].key != key);
            }
        }
        lemma_uncalled_key_untouched(snapshot, front, key);
        assert(calls[calls.len() - 1].key != key);
    }
}

/// Whether two layers agree in every field but the opacity.
pub open spec fn same_but_opacity(a: LayerView, b: LayerView) -> bool {
    &&& a.fade_ms == b.fade_ms
    &&& a.thumbnail == b.thumbnail
    &&& a.midi_channel == b.midi_channel
}

/// Whether `later` differs from `earlier` in opacities alone: it has every
/// key of `earlier`, and each of its layers agrees, but for the opacity,
/// with the layer that its key had in `earlier` (with the default layer, if
/// the key is new).
pub open spec fn only_opacities_differ(earlier: Snapshot, later: Snapshot) -> bool {
    &&& earlier.dom().subset_of(later.dom())
    &&& forall|key: Seq<char>| #[trigger]
        later.dom().contains(key) ==> same_but_opacity(later[key], layer_or_default(earlier, key))
}

/// Setting an opacity keeps a snapshot within what differs from an earlier
/// one in opacities alone.
pub proof fn lemma_set_opacity_keeps_other_fields(
    earlier: Snapshot,
    snapshot: Snapshot,
    key: Seq<char>,
    opacity_bits: u32,
)
    requires
        only_opacities_differ(earlier, snapshot),
    ensures
        only_opacities_differ(earlier, with_opacity(snapshot, key, opacity_bits)),
{
    let later = with_opacity(snapshot, key, opacity_bits);
    assert forall|other: Seq<char>| #[trigger] later.dom().contains(other) implies same_but_opacity(
        later[other],
        layer_or_default(earlier, other),
    ) by {
        if other != key {
            assert(snapshot.dom().contains(other));
        } else if snapshot.dom().contains(key) {
            assert(same_but_opacity(snapshot[key], layer_or_default(earlier, key)));
        }
    }
}

/// No sequence of calls removes a key, and none changes a field other than
/// the opacity: whatever the calls, a key of the result has the fade,
/// thumbnail and MIDI channel that it had before them (the defaults, if the
/// calls brought it in).
pub proof fn lemma_other_fields_kept(snapshot: Snapshot, calls: Seq<OpacityCall>)
    ensures
        only_opacities_differ(snapshot, after_calls(snapshot, calls)),
    decreases calls.len(),
{
    if calls.len() > 0 {
        let front = calls.drop_last();
        lemma_other_fields_kept(snapshot, front);
        lemma_set_opacity_keeps_other_fields(
            snapshot,
            after_calls(snapshot, front),
            calls.last().key,
            calls.last().opacity_bits,
        );
    }
}

/// The snapshot that a list of keyed layers stands for: each layer under
/// its key, a later one in place of an earlier one under the same key.
pub open spec fn snapshot_of(records: Seq<Record>) -> Snapshot
    decreases records.len(),
{
    if records.len() == 0 {
        Map::empty()
    } else {
        snapshot_of(records.drop_last()).insert(records.last().0, records.last().1)
    }
}

/// Whether no key stands at two places of `records`.
pub open spec fn keyed_once(records: Seq<Record>) -> bool {
    forall|i: int, j: int|
        0 <= i < records.len() && 0 <= j < records.len() && (#[trigger] records[i]).0
            == (#[trigger] records[j]).0 ==> i == j
}

/// Whether every record of `a` is a record of `b`.
pub open spec fn each_record_in(
    a: Seq<Record>,
    b: Seq<Record>,
) -> bool {
    forall|i: int| 0 <= i < a.len() ==> b.contains(#[trigger] a[i])
}

/// A key is in the snapshot of a list of records exactly if some record
/// has it; where each key stands once, every record is found under its key.
pub proof fn lemma_snapshot_of_records(records: Seq<Record>)
    ensures
        forall|key: Seq<char>|
            #[trigger] snapshot_of(records).dom().contains(key) <==> exists|i: int|
                0 <= i < records.len() && (#[trigger] records[i]).0 == key,
        keyed_once(records) ==> forall|i: int|
            0 <= i < records.len() ==> snapshot_of(records)[(#[trigger] records[i]).0]
                == records[i].1,
    decreases records.len(),
{
    if records.len() > 0 {
        let front = records.drop_last();
        let last = records.last();
        lemma_snapshot_of_records(front);
        assert forall|key: Seq<char>|
            #[trigger] snapshot_of(records).dom().contains(key) <==> exists|i: int|
                0 <= i < records.len() && (#[trigger] records[i]).0 == key by {
            let in_front = snapshot_of(front).dom().contains(key);
            if snapshot_of(records).dom().contains(key) {
                if key == last.0 {
                    assert(records[records.len() - 1].0 == key);
                } else {
                    assert(in_front);
                    let i = choose|i: int| 0 <= i < front.len() && (#[trigger] front[i]).0 == key;
                    assert(records[i].0 == key);
                }
            }
            if exists|i: int| 0 <= i < records.len() && (#[trigger] records[i]).0 == key {
                let i = choose|i: int| 0 <= i < records.len() && (#[trigger] records[i]).0 == key;
                if i < front.len() {
                    assert(front[i].0 == key);
                    assert(in_front);
                }
            }
        }
        if keyed_once(records) {
            assert(keyed_once(front)) by {
                assert forall|i: int, j: int|
                    0 <= i < front.len() && 0 <= j < front.len() && (#[trigger] front[i]).0 == (
                    #[trigger] front[j]).0 implies i == j by {
                    assert(records[i].0 == records[j].0);
                }
            }
            assert forall|i: int| 0 <= i < records.len() implies snapshot_of(records)[(
            #[trigger] records[i]).0] == records[i].1 by {
                if i < front.len() {
                    assert(front[i] == records[i]);
                    assert(records[i].0 != records[records.len() - 1].0);
                }
            }
        }
    }
}

/// Two lists of records that hold the same records, each key once, stand
/// for the same snapshot, whatever their order.
pub proof fn lemma_snapshot_ignores_order(
    a: Seq<Record>,
    b: Seq<Record>,
)
    requires
        keyed_once(a),
        keyed_once(b),
        each_record_in(a, b),
        each_record_in(b, a),
    ensures
        snapshot_of(a) == snapshot_of(b),
{
    lemma_snapshot_of_records(a);
    lemma_snapshot_of_records(b);
    assert forall|key: Seq<char>| #[trigger]
        snapshot_of(a).dom().contains(key) <==> snapshot_of(b).dom().contains(key) by {
        if snapshot_of(a).dom().contains(key) {
            let i = choose|i: int| 0 <= i < a.len() && (#[trigger] a[i]).0 == key;
            assert(b.contains(a[i]));
            let j = choose|j: int| 0 <= j < b.len() && b[j] == a[i];
            assert(b[j].0 == key);
        }
        if snapshot_of(b).dom().contains(key) {
            let i = choose|i: int| 0 <= i < b.len() && (#[trigger] b[i]).0 == key;
            assert(a.contains(b[i]));
            let j = choose|j: int| 0 <= j < a.len() && a[j] == b[i];
            assert(a[j].0 == key);
        }
    }
    assert forall|key: Seq<char>| #[trigger] snapshot_of(a).dom().contains(key) implies snapshot_of(
        a,
    )[key] == snapshot_of(b)[key] by {
        let i = choose|i: int| 0 <= i < a.len() && (#[trigger] a[i]).0 == key;
        assert(b.contains(a[i]));
        let j = choose|j: int| 0 <= j < b.len() && b[j] == a[i];
        assert(snapshot_of(a)[a[i].0] == a[i].1);
        assert(snapshot_of(b)[b[j].0] == b[j].1);
    }
    assert(snapshot_of(a) =~= snapshot_of(b));
}

} // verus!
