//! Writing the archive: what a fetched tile looks like on its way to the
//! archive, and the buffer that puts the tiles back into the order in which
//! the archive wants them.

use crate::metadata::Metadata;
use crate::progress::ProgressMsg;
use crate::text::{chars_of, decimal, is_word, push_decimal, string_of};
use crate::tile::Tile;
use crate::tile_list::{header_of, TileListMeta};
use std::collections::BTreeMap;
use vstd::laws_cmp::group_laws_cmp;
use vstd::prelude::*;
use vstd::std_specs::btree::group_btree_axioms;
use vstd::string::StringExecFns;

verus! {

/// A fetched tile on its way to the archive.
#[derive(Debug, PartialEq, Eq)]
pub struct WriteTileMsg {
    /// The place of the tile in the order of the archive, counted from 0.
    pub index: usize,
    /// The tile.
    pub tile: Tile,
    /// The payload; `None` where the tile does not exist upstream.
    pub data: Option<Vec<u8>>,
}

/// What waits under an index: a tile and its payload, if it has one.
pub type Slot = (Tile, Option<Vec<u8>>);

/// The kind of tile that an archive holds.
#[derive(Clone, Copy, Debug, PartialEq, Eq, Structural)]
pub enum TileType {
    Png,
    Jpeg,
    Webp,
    Mvt,
}

/// The kind of tile that a format name stands for: `jpg` and `jpeg` for
/// JPEG, `webp` and `mvt` for themselves, and PNG for `png` and for every
/// other name.
pub open spec fn tile_type_of(name: Seq<char>) -> TileType {
    if name == seq!['j', 'p', 'g'] || name == seq!['j', 'p', 'e', 'g'] {
        TileType::Jpeg
    } else if name == seq!['w', 'e', 'b', 'p'] {
        TileType::Webp
    } else if name == seq!['m', 'v', 't'] {
        TileType::Mvt
    } else {
        TileType::Png
    }
}

/// The kind of tile that a format name stands for.
pub fn str_to_tile_type(name: &str) -> (kind: TileType)
    ensures
        kind == tile_type_of(name@),
{
    let text: Vec<char> = chars_of(name);
    let jpg: Vec<char> = vec!['j', 'p', 'g'];
    let jpeg: Vec<char> = vec!['j', 'p', 'e', 'g'];
    let webp: Vec<char> = vec!['w', 'e', 'b', 'p'];
    let mvt: Vec<char> = vec!['m', 'v', 't'];
    assert(jpg@ =~= seq!['j', 'p', 'g'] && jpeg@ =~= seq!['j', 'p', 'e', 'g']);
    assert(webp@ =~= seq!['w', 'e', 'b', 'p'] && mvt@ =~= seq!['m', 'v', 't']);
    if is_word(&text, &jpg) || is_word(&text, &jpeg) {
        TileType::Jpeg
    } else if is_word(&text, &webp) {
        TileType::Webp
    } else if is_word(&text, &mvt) {
        TileType::Mvt
    } else {
        TileType::Png
    }
}

/// The slots that can leave a buffer whose next index is `next`: the one
/// under `next`, the one under `next + 1`, and so on up to the first index
/// under which nothing waits. The index `usize::MAX` is never reached.
pub open spec fn ready(pending: Map<usize, Slot>, next: usize) -> Seq<Slot>
    decreases usize::MAX - next,
{
    if next < usize::MAX && pending.contains_key(next) {
        seq![pending[next]] + ready(pending, (next + 1) as usize)
    } else {
        Seq::empty()
    }
}

/// The tiles of a run of slots that go into the archive: those with a
/// payload, in their order. A slot without one takes its place in the
/// order and leaves nothing.
pub open spec fn stored(run: Seq<Slot>) -> Seq<(Tile, Vec<u8>)>
    decreases run.len(),
{
    if run.len() == 0 {
        Seq::empty()
    } else {
        let front = stored(run.drop_last());
        match run.last().1 {
            Some(data) => front.push((run.last().0, data)),
            None => front,
        }
    }
}

/// The indices from `from` up to, not including, `to`.
pub open spec fn span(from: int, to: int) -> Set<usize> {
    Set::new(|i: usize| from <= i < to)
}

/// The tiles of tiles with their payloads.
pub open spec fn tiles_of(s: Seq<(Tile, Vec<u8>)>) -> Seq<Tile> {
    s.map_values(|p: (Tile, Vec<u8>)| p.0)
}

/// The state of the writer: the index that leaves the buffer next, what
/// waits in the buffer, and the tiles that have been handed out to go into
/// the archive, in the order of handing out.
pub struct WriterState {
    pub next: usize,
    pub pending: Map<usize, Slot>,
    pub written: Seq<Tile>,
}

impl WriterState {
    /// The state before anything has arrived.
    pub open spec fn start() -> WriterState {
        WriterState { next: 0, pending: Map::empty(), written: Seq::empty() }
    }

    /// The state after `msg` has arrived, and the run of slots that leaves
    /// the buffer on its arrival. The tiles of the run that have a payload
    /// are handed out.
    pub open spec fn write(self, msg: WriteTileMsg) -> (WriterState, Seq<Slot>) {
        let arrived = self.pending.insert(msg.index, (msg.tile, msg.data));
        let run = ready(arrived, self.next);
        (
            WriterState {
                next: (self.next + run.len()) as usize,
                pending: arrived.remove_keys(span(self.next as int, self.next + run.len())),
                written: self.written + tiles_of(stored(run)),
            },
            run,
        )
    }

    /// The header values of the archive: those of the tiles that have
    /// gone into it.
    pub open spec fn header(self) -> TileListMeta {
        header_of(self.written)
    }
}

/// A run never passes `usize::MAX`, and it ends at the first index under
/// which nothing waits.
pub proof fn lemma_ready_end(pending: Map<usize, Slot>, next: usize)
    ensures
        next + ready(pending, next).len() <= usize::MAX,
        next + ready(pending, next).len() < usize::MAX ==> !pending.contains_key(
            (next + ready(pending, next).len()) as usize,
        ),
    decreases usize::MAX - next,
{
    if next < usize::MAX && pending.contains_key(next) {
        lemma_ready_end(pending, (next + 1) as usize);
    }
}

/// The `j`-th slot of a run is what waits under the `j`-th index from
/// `next` on.
pub proof fn lemma_ready_at(pending: Map<usize, Slot>, next: usize, j: int)
    requires
        0 <= j < ready(pending, next).len(),
    ensures
        next + j < usize::MAX,
        pending.contains_key((next + j) as usize),
        ready(pending, next)[j] == pending[(next + j) as usize],
    decreases j,
{
    if j > 0 {
        lemma_ready_at(pending, (next + 1) as usize, j - 1);
    }
}

/// What waits under indices below `next` plays no part in the run from
/// `next`.
pub proof fn lemma_ready_ignores(pending: Map<usize, Slot>, below: usize, next: usize)
    requires
        below < next,
    ensures
        ready(pending.remove(below), next) == ready(pending, next),
    decreases usize::MAX - next,
{
    if next < usize::MAX && pending.contains_key(next) {
        lemma_ready_ignores(pending, below, (next + 1) as usize);
    }
}

/// What a message puts into the buffer.
pub open spec fn slot_of(msg: WriteTileMsg) -> Slot {
    (msg.tile, msg.data)
}

/// The state after the messages of `msgs` have arrived one after the
/// other at a fresh buffer, and everything that has left it, in the order
/// of leaving.
pub open spec fn deliver(msgs: Seq<WriteTileMsg>) -> (WriterState, Seq<Slot>)
    decreases msgs.len(),
{
    if msgs.len() == 0 {
        (WriterState::start(), Seq::empty())
    } else {
        let before = deliver(msgs.drop_last());
        let step = before.0.write(msgs.last());
        (step.0, before.1 + step.1)
    }
}

/// What has gone into the archive once the messages of `msgs` have arrived
/// one after the other: the tiles handed out on each arrival, one lot
/// after the other.
pub open spec fn archive_of(msgs: Seq<WriteTileMsg>) -> Seq<(Tile, Vec<u8>)>
    decreases msgs.len(),
{
    if msgs.len() == 0 {
        Seq::empty()
    } else {
        archive_of(msgs.drop_last()) + stored(
            deliver(msgs.drop_last()).0.write(msgs.last()).1,
        )
    }
}

/// Whether one of the first `k` messages carries the index `i`.
pub open spec fn arrived(msgs: Seq<WriteTileMsg>, k: int, i: usize) -> bool {
    exists|j: int| 0 <= j < k && (#[trigger] msgs[j]).index == i
}

/// The position in `msgs` of a message that carries the index `i`.
pub open spec fn arrival_of(msgs: Seq<WriteTileMsg>, i: usize) -> int {
    choose|j: int| 0 <= j < msgs.len() && (#[trigger] msgs[j]).index == i
}

/// Whether the messages carry each index from 0 up to their number exactly
/// once, in whatever order: no index is missing, none comes twice and none
/// lies beyond.
pub open spec fn each_index_once(msgs: Seq<WriteTileMsg>) -> bool {
    &&& msgs.len() <= usize::MAX
    &&& forall|k: int| 0 <= k < msgs.len() ==> (#[trigger] msgs[k]).index < msgs.len()
    &&& forall|k: int, l: int|
        0 <= k < l < msgs.len() ==> (#[trigger] msgs[k]).index != (#[trigger] msgs[l]).index
    &&& forall|i: usize| i < msgs.len() ==> #[trigger] arrived(msgs, msgs.len() as int, i)
}

/// The messages in the order of their indices, as slots.
pub open spec fn in_index_order(msgs: Seq<WriteTileMsg>) -> Seq<Slot> {
    Seq::new(msgs.len(), |i: int| slot_of(msgs[arrival_of(msgs, i as usize)]))
}

/// What holds of the buffer after the first `k` of the messages: what has
/// left is the unbroken run of indices from 0 that has arrived, in index
/// order, and what waits is the rest of what has arrived.
pub open spec fn delivered_so_far(msgs: Seq<WriteTileMsg>, k: int) -> bool {
    let w = deliver(msgs.take(k)).0;
    let out = deliver(msgs.take(k)).1;
    &&& out.len() == w.next
    &&& forall|i: usize|
        i < w.next ==> #[trigger] arrived(msgs, k, i) && out[i as int] == slot_of(
            msgs[arrival_of(msgs, i)],
        )
    &&& !arrived(msgs, k, w.next)
    &&& forall|i: usize| #[trigger]
        w.pending.contains_key(i) <==> arrived(msgs, k, i) && i >= w.next
    &&& forall|i: usize| #[trigger]
        w.pending.contains_key(i) ==> w.pending[i] == slot_of(msgs[arrival_of(msgs, i)])
}

/// Where each index comes once, the message at position `k` is the one
/// that carries its index.
proof fn lemma_arrival(msgs: Seq<WriteTileMsg>, k: int)
    requires
        each_index_once(msgs),
        0 <= k < msgs.len(),
    ensures
        arrival_of(msgs, msgs[k].index) == k,
{
    let i = msgs[k].index;
    let j = arrival_of(msgs, i);
    assert(msgs[k].index == i);
    assert(0 <= j < msgs.len() && msgs[j].index == i);
    if j < k {
        assert(msgs[j].index != msgs[k].index);
    } else if k < j {
        assert(msgs[k].index != msgs[j].index);
    }
}

/// The buffer lets out exactly the unbroken run of indices that has
/// arrived, whatever the order of arrival.
proof fn lemma_delivered_so_far(msgs: Seq<WriteTileMsg>, k: int)
    requires
        each_index_once(msgs),
        0 <= k <= msgs.len(),
    ensures
        delivered_so_far(msgs, k),
    decreases k,
{
    if k == 0 {
        assert(msgs.take(0) =~= Seq::<WriteTileMsg>::empty());
        let w = deliver(msgs.take(0)).0;
        assert(w == WriterState::start());
        assert forall|i: usize| #[trigger]
            w.pending.contains_key(i) <==> arrived(msgs, 0, i) && i >= w.next by {}
    } else {
        lemma_delivered_so_far(msgs, k - 1);
        let prefix = msgs.take(k);
        assert(prefix.drop_last() =~= msgs.take(k - 1));
        assert(prefix.last() == msgs[k - 1]);
        let w0 = deliver(msgs.take(k - 1)).0;
        let out0 = deliver(msgs.take(k - 1)).1;
        let m = msgs[k - 1];
        let idx = m.index;
        let p = w0.pending.insert(idx, slot_of(m));
        let run = ready(p, w0.next);
        let w = deliver(prefix).0;
        let out = deliver(prefix).1;
        assert(w == w0.write(m).0);
        assert(out == out0 + run);
        lemma_ready_end(p, w0.next);
        lemma_arrival(msgs, k - 1);
        // the new index has not come before, so it lies at or beyond the next
        assert(!arrived(msgs, k - 1, idx)) by {
            if arrived(msgs, k - 1, idx) {
                let j = choose|j: int| 0 <= j < k - 1 && (#[trigger] msgs[j]).index == idx;
                assert(msgs[j].index != msgs[k - 1].index);
            }
        }
        assert(idx >= w0.next) by {
            if idx < w0.next {
                assert(arrived(msgs, k - 1, idx));
            }
        }
        assert forall|i: usize| arrived(msgs, k, i) <==> (arrived(msgs, k - 1, i) || i == idx) by {
            if arrived(msgs, k, i) {
                let j = choose|j: int| 0 <= j < k && (#[trigger] msgs[j]).index == i;
                if j < k - 1 {
                    assert(arrived(msgs, k - 1, i));
                }
            }
            if arrived(msgs, k - 1, i) {
                let j = choose|j: int| 0 <= j < k - 1 && (#[trigger] msgs[j]).index == i;
                assert(0 <= j < k && msgs[j].index == i);
            }
            if i == idx {
                assert(0 <= k - 1 < k && msgs[k - 1].index == i);
            }
        }
        assert forall|i: usize| #[trigger]
            p.contains_key(i) <==> arrived(msgs, k, i) && i >= w0.next by {
            assert(w0.pending.contains_key(i) <==> arrived(msgs, k - 1, i) && i >= w0.next);
        }
        assert forall|i: usize| #[trigger] p.contains_key(i) implies p[i] == slot_of(
            msgs[arrival_of(msgs, i)],
        ) by {
            if i != idx {
                assert(w0.pending.contains_key(i));
            }
        }
        assert forall|i: usize| i < w.next implies #[trigger] arrived(msgs, k, i) && out[i as int]
            == slot_of(msgs[arrival_of(msgs, i)]) by {
            if i < w0.next {
                assert(arrived(msgs, k - 1, i));
                assert(out[i as int] == out0[i as int]);
            } else {
                let j = i - w0.next;
                lemma_ready_at(p, w0.next, j);
                assert((w0.next + j) as usize == i);
                assert(p.contains_key(i));
                assert(out[i as int] == run[j]);
            }
        }
        assert(!arrived(msgs, k, w.next)) by {
            if arrived(msgs, k, w.next) {
                let j = choose|j: int| 0 <= j < k && (#[trigger] msgs[j]).index == w.next;
                assert(msgs[j].index < msgs.len());
                assert(p.contains_key(w.next));
            }
        }
        assert forall|i: usize| #[trigger]
            w.pending.contains_key(i) <==> arrived(msgs, k, i) && i >= w.next by {
            assert(p.contains_key(i) <==> arrived(msgs, k, i) && i >= w0.next);
        }
        assert forall|i: usize| #[trigger] w.pending.contains_key(i) implies w.pending[i]
            == slot_of(msgs[arrival_of(msgs, i)]) by {
            assert(p.contains_key(i));
        }
    }
}

/// Whatever the order in which the messages arrive, as long as each index
/// from 0 on comes exactly once, the buffer lets them all out, in the order
/// of their indices, and is empty at the end.
pub proof fn lemma_delivery_in_index_order(msgs: Seq<WriteTileMsg>)
    requires
        each_index_once(msgs),
    ensures
        deliver(msgs).1 == in_index_order(msgs),
        deliver(msgs).0.next == msgs.len(),
        deliver(msgs).0.pending == Map::<usize, Slot>::empty(),
{
    let n = msgs.len() as int;
    lemma_delivered_so_far(msgs, n);
    assert(msgs.take(n) =~= msgs);
    let w = deliver(msgs).0;
    let out = deliver(msgs).1;
    assert(w.next >= n) by {
        if w.next < n {
            assert(arrived(msgs, n, w.next));
        }
    }
    assert(w.next <= n) by {
        if w.next > n {
            let i: usize = n as usize;
            assert(arrived(msgs, n, i));
            let j = choose|j: int| 0 <= j < n && (#[trigger] msgs[j]).index == i;
            assert(msgs[j].index < msgs.len());
        }
    }
    assert forall|i: usize| !w.pending.contains_key(i) by {
        if w.pending.contains_key(i) {
            assert(arrived(msgs, n, i) && i >= w.next);
            let j = choose|j: int| 0 <= j < n && (#[trigger] msgs[j]).index == i;
            assert(msgs[j].index < msgs.len());
        }
    }
    assert(w.pending =~= Map::<usize, Slot>::empty());
    assert forall|i: int| 0 <= i < n implies out[i] == in_index_order(msgs)[i] by {
        let u: usize = i as usize;
        assert(arrived(msgs, n, u));
    }
    assert(out =~= in_index_order(msgs));
}

/// The archive holds, of everything that has left the buffer, the tiles
/// with a payload, in the order of leaving.
pub proof fn lemma_archive_is_what_left(msgs: Seq<WriteTileMsg>)
    ensures
        archive_of(msgs) == stored(deliver(msgs).1),
    decreases msgs.len(),
{
    if msgs.len() > 0 {
        lemma_archive_is_what_left(msgs.drop_last());
        lemma_stored_concat(
            deliver(msgs.drop_last()).1,
            deliver(msgs.drop_last()).0.write(msgs.last()).1,
        );
    }
}

/// The tiles that the writer has handed out are the tiles of the archive,
/// so the header speaks of the tiles in the archive and of no other.
pub proof fn lemma_written_is_archive(msgs: Seq<WriteTileMsg>)
    ensures
        deliver(msgs).0.written == tiles_of(archive_of(msgs)),
        deliver(msgs).0.header() == header_of(tiles_of(archive_of(msgs))),
    decreases msgs.len(),
{
    if msgs.len() > 0 {
        lemma_written_is_archive(msgs.drop_last());
        let before = archive_of(msgs.drop_last());
        let now = stored(deliver(msgs.drop_last()).0.write(msgs.last()).1);
        assert(tiles_of(before + now) =~= tiles_of(before) + tiles_of(now));
    } else {
        assert(tiles_of(archive_of(msgs)) =~= Seq::<Tile>::empty());
    }
}

/// Two orders of arrival of the same messages leave the same archive
/// behind: the buffer lets out the same slots, in the same order.
pub proof fn lemma_order_of_arrival_is_immaterial(a: Seq<WriteTileMsg>, b: Seq<WriteTileMsg>)
    requires
        each_index_once(a),
        each_index_once(b),
        a.len() == b.len(),
        forall|k: int| 0 <= k < a.len() ==> b.contains(#[trigger] a[k]),
    ensures
        deliver(a).1 == deliver(b).1,
        archive_of(a) == archive_of(b),
        deliver(a).0.header() == deliver(b).0.header(),
{
    lemma_written_is_archive(a);
    lemma_written_is_archive(b);
    lemma_archive_is_what_left(a);
    lemma_archive_is_what_left(b);
    lemma_delivery_in_index_order(a);
    lemma_delivery_in_index_order(b);
    assert forall|i: int| 0 <= i < a.len() implies in_index_order(a)[i] == in_index_order(b)[i] by {
        let u: usize = i as usize;
        assert(arrived(a, a.len() as int, u));
        assert(arrived(b, b.len() as int, u));
        let ka = arrival_of(a, u);
        let kb = arrival_of(b, u);
        assert(b.contains(a[ka]));
        let l = choose|l: int| 0 <= l < b.len() && b[l] == a[ka];
        lemma_arrival(b, l);
        assert(l == kb);
    }
    assert(in_index_order(a) =~= in_index_order(b));
}

/// Messages that arrive in the reverse of their order leave the same
/// archive behind as messages that arrive in order.
pub proof fn lemma_reverse_delivery(msgs: Seq<WriteTileMsg>)
    requires
        msgs.len() <= usize::MAX,
        forall|k: int| 0 <= k < msgs.len() ==> (#[trigger] msgs[k]).index == k,
    ensures
        deliver(msgs.reverse()).1 == deliver(msgs).1,
        archive_of(msgs.reverse()) == archive_of(msgs),
        deliver(msgs.reverse()).0.header() == deliver(msgs).0.header(),
{
    let n = msgs.len() as int;
    let rev = msgs.reverse();
    assert forall|i: usize| i < n implies #[trigger] arrived(msgs, n, i) by {
        assert(msgs[i as int].index == i);
    }
    assert forall|i: usize| i < n implies #[trigger] arrived(rev, n, i) by {
        assert(rev[n - 1 - i] == msgs[i as int]);
        assert(0 <= n - 1 - i < n && rev[n - 1 - i].index == i);
    }
    assert forall|k: int, l: int| 0 <= k < l < n implies (#[trigger] rev[k]).index != (
    #[trigger] rev[l]).index by {
        assert(rev[k] == msgs[n - 1 - k]);
        assert(rev[l] == msgs[n - 1 - l]);
    }
    assert forall|k: int| 0 <= k < n implies (#[trigger] rev[k]).index < n by {
        assert(rev[k] == msgs[n - 1 - k]);
    }
    assert forall|k: int| 0 <= k < n implies rev.contains(#[trigger] msgs[k]) by {
        assert(rev[n - 1 - k] == msgs[k]);
    }
    lemma_order_of_arrival_is_immaterial(msgs, rev);
}

/// What goes into the archive from two runs, one after the other, is what
/// goes in from the first and then what goes in from the second.
pub proof fn lemma_stored_concat(a: Seq<Slot>, b: Seq<Slot>)
    ensures
        stored(a + b) == stored(a) + stored(b),
    decreases b.len(),
{
    if b.len() == 0 {
        assert(a + b =~= a);
        assert(stored(a) + stored(b) =~= stored(a));
    } else {
        lemma_stored_concat(a, b.drop_last());
        assert((a + b).drop_last() =~= a + b.drop_last());
        assert((a + b).last() == b.last());
        match b.last().1 {
            Some(data) => {
                assert(stored(a + b) =~= stored(a) + stored(b));
            },
            None => {},
        }
    }
}

/// Puts a slot under an index.
fn put_slot(buf: &mut BTreeMap<usize, Slot>, index: usize, slot: Slot)
    ensures
        final(buf)@ == old(buf)@.insert(index, slot),
{
    broadcast use group_laws_cmp;
    broadcast use group_btree_axioms;

    buf.insert(index, slot);
}

/// Takes the slot under an index, if one waits there.
fn take_slot(buf: &mut BTreeMap<usize, Slot>, index: usize) -> (slot: Option<Slot>)
    ensures
        match slot {
            Some(s) => old(buf)@.contains_key(index) && s == old(buf)@[index] && final(buf)@ == old(
                buf,
            )@.remove(index),
            None => !old(buf)@.contains_key(index) && final(buf)@ == old(buf)@,
        },
{
    broadcast use group_laws_cmp;
    broadcast use group_btree_axioms;

    let slot: Option<Slot> = buf.remove(&index);
    assert(final(buf)@ =~= old(buf)@.remove(index));
    slot
}

/// Why an archive cannot be written.
#[derive(Debug, PartialEq, Eq)]
pub enum WriterError {
    /// A file stands at the output path and may not be replaced.
    OutputExists,
}

/// How the finished archive takes its place at the output path.
#[derive(Clone, Copy, Debug, PartialEq, Eq, Structural)]
pub enum PersistMode {
    /// It replaces whatever stands there.
    Overwrite,
    /// It fails if anything stands there by then.
    NoClobber,
}

/// The writer of an archive: the buffer that lets the tiles through in
/// the order of their indices, and the tiles that it has let through into
/// the archive, of which the header of the archive speaks.
pub struct Writer {
    force: bool,
    tile_type: TileType,
    metadata: Metadata,
    next: usize,
    buf: BTreeMap<usize, Slot>,
    written: Vec<Tile>,
}

impl View for Writer {
    type V = WriterState;

    closed spec fn view(&self) -> WriterState {
        WriterState { next: self.next, pending: self.buf@, written: self.written@ }
    }
}

/// The line that is logged before the archive is finalized.
pub open spec fn closing_line() -> Seq<char> {
    "Finished writing tiles, finalizing archive..."@
}

/// The line that is logged once an archive of `count` tiles is in place at
/// `output`.
pub open spec fn finished_line(count: nat, output: Seq<char>) -> Seq<char> {
    "Finished writing "@ + decimal(count) + " tiles to "@ + output + "."@
}

impl Writer {
    /// Whether the archive may replace a file at the output path.
    pub closed spec fn spec_force(&self) -> bool {
        self.force
    }

    /// The kind of tile that the archive holds.
    pub closed spec fn spec_tile_type(&self) -> TileType {
        self.tile_type
    }

    /// The descriptive metadata for the archive.
    pub closed spec fn spec_metadata(&self) -> Metadata {
        self.metadata
    }

    /// A writer for an archive of tiles of the format `ext`. Where a file
    /// stands at the output path and `force` is not given, there is no
    /// writer.
    pub fn new(output_exists: bool, force: bool, ext: &str, metadata: Metadata) -> (r: Result<
        Writer,
        WriterError,
    >)
        ensures
            match r {
                Ok(w) => {
                    &&& force || !output_exists
                    &&& w@ == WriterState::start()
                    &&& w.spec_force() == force
                    &&& w.spec_tile_type() == tile_type_of(ext@)
                    &&& w.spec_metadata() == metadata
                },
                Err(e) => e == WriterError::OutputExists && !force && output_exists,
            },
    {
        if !force && output_exists {
            return Err(WriterError::OutputExists);
        }
        Ok(
            Writer {
                force,
                tile_type: str_to_tile_type(ext),
                metadata,
                next: 0,
                buf: BTreeMap::new(),
                written: Vec::new(),
            },
        )
    }

    /// The kind of tile that the archive holds.
    pub fn tile_type(&self) -> (kind: TileType)
        ensures
            kind == self.spec_tile_type(),
    {
        self.tile_type
    }

    /// The zoom range and the extent for the header of the archive: those
    /// of the tiles that have gone into it so far. Tiles that turned out
    /// absent play no part.
    pub fn header(&self) -> (meta: TileListMeta)
        ensures
            meta == self@.header(),
    {
        TileListMeta::of(&self.written)
    }

    /// The number of tiles that have gone into the archive so far.
    pub fn written(&self) -> (n: usize)
        ensures
            n == self@.written.len(),
    {
        self.written.len()
    }

    /// What is reported for tiles once they are in the archive: for each
    /// of them, in their order, that it was written.
    pub fn reports(tiles: &Vec<(Tile, Vec<u8>)>) -> (msgs: Vec<ProgressMsg>)
        ensures
            msgs@.len() == tiles@.len(),
            forall|k: int|
                0 <= k < msgs@.len() ==> #[trigger] msgs@[k] == ProgressMsg::Written(tiles@[k].0),
    {
        let mut msgs: Vec<ProgressMsg> = Vec::new();
        let mut k: usize = 0;
        while k < tiles.len()
            invariant
                k <= tiles.len(),
                msgs@.len() == k,
                forall|j: int|
                    0 <= j < k ==> #[trigger] msgs@[j] == ProgressMsg::Written(tiles@[j].0),
            decreases tiles.len() - k,
        {
            msgs.push(ProgressMsg::Written(tiles[k].0));
            k = k + 1;
        }
        msgs
    }

    /// What is reported when every tile has arrived, before the archive is
    /// finalized: a line for the log.
    pub fn closing() -> (msg: ProgressMsg)
        ensures
            msg matches ProgressMsg::Log(line) && line@ == closing_line(),
    {
        ProgressMsg::Log(String::from_str("Finished writing tiles, finalizing archive..."))
    }

    /// What is reported once the archive is in place at `output`: a line
    /// for the log with the number of tiles in the archive, and that the
    /// run is finished.
    pub fn finish(&self, output: &str) -> (msgs: Vec<ProgressMsg>)
        ensures
            msgs@.len() == 2,
            msgs@[0] matches ProgressMsg::Log(line) && line@ == finished_line(
                self@.written.len(),
                output@,
            ),
            msgs@[1] is Finished,
    {
        let mut digits: Vec<char> = Vec::new();
        push_decimal(self.written.len() as u64, &mut digits);
        assert(digits@ =~= decimal(self@.written.len()));
        let mut line: String = String::from_str("Finished writing ");
        line.append(string_of(&digits).as_str());
        line.append(" tiles to ");
        line.append(output);
        line.append(".");
        let mut msgs: Vec<ProgressMsg> = Vec::new();
        msgs.push(ProgressMsg::Log(line));
        msgs.push(ProgressMsg::Finished);
        msgs
    }

    /// The descriptive metadata for the archive.
    pub fn metadata(&self) -> (metadata: &Metadata)
        ensures
            *metadata == self.spec_metadata(),
    {
        &self.metadata
    }

    /// The index that leaves the buffer next: the number of indices that
    /// have left it.
    pub fn next_index(&self) -> (next: usize)
        ensures
            next == self@.next,
    {
        self.next
    }

    /// How the finished archive takes its place: it may replace a file
    /// only where `force` was given. Without it the step that puts the
    /// archive in place must itself fail on a file that has appeared.
    pub fn persist_mode(&self) -> (mode: PersistMode)
        ensures
            mode == if self.spec_force() {
                PersistMode::Overwrite
            } else {
                PersistMode::NoClobber
            },
    {
        if self.force {
            PersistMode::Overwrite
        } else {
            PersistMode::NoClobber
        }
    }

    /// Takes a fetched tile and gives back the tiles that go into the
    /// archive now, in order: the run of slots from the next index on, less
    /// those without a payload. The writer keeps count of these tiles for
    /// the header.
    pub fn write(&mut self, msg: WriteTileMsg) -> (out: Vec<(Tile, Vec<u8>)>)
        ensures
            final(self)@ == old(self)@.write(msg).0,
            out@ == stored(old(self)@.write(msg).1),
            final(self).spec_force() == old(self).spec_force(),
            final(self).spec_tile_type() == old(self).spec_tile_type(),
            final(self).spec_metadata() == old(self).spec_metadata(),
    {
        let ghost first = self.next;
        put_slot(&mut self.buf, msg.index, (msg.tile, msg.data));
        let ghost arrived = self.buf@;
        let ghost whole = ready(arrived, first);
        let ghost mut run: Seq<Slot> = Seq::empty();
        let mut out: Vec<(Tile, Vec<u8>)> = Vec::new();
        let mut more: bool = true;
        proof {
            assert(arrived.remove_keys(span(first as int, first as int)) =~= arrived);
            assert(self.written@ =~= old(self).written@ + tiles_of(stored(run)));
        }
        while more
            invariant
                first <= self.next,
                self.next == first + run.len(),
                run + ready(self.buf@, self.next) == whole,
                !more ==> ready(self.buf@, self.next).len() == 0,
                self.buf@ == arrived.remove_keys(span(first as int, self.next as int)),
                out@ == stored(run),
                self.written@ == old(self).written@ + tiles_of(stored(run)),
                self.force == old(self).force,
                self.tile_type == old(self).tile_type,
                self.metadata == old(self).metadata,
            decreases usize::MAX - self.next, (if more { 1int } else { 0int }),
        {
            if self.next == usize::MAX {
                more = false;
            } else {
                let ghost before = self.buf@;
                match take_slot(&mut self.buf, self.next) {
                    None => {
                        more = false;
                    },
                    Some(slot) => {
                        proof {
                            lemma_ready_ignores(before, self.next, (self.next + 1) as usize);
                            assert(run.push(slot) + ready(self.buf@, (self.next + 1) as usize)
                                =~= run + ready(before, self.next));
                            assert(run.push(slot).drop_last() =~= run);
                            assert(self.buf@ =~= arrived.remove_keys(
                                span(first as int, self.next + 1),
                            ));
                            run = run.push(slot);
                        }
                        let ghost handed = out@;
                        match slot.1 {
                            Some(data) => {
                                out.push((slot.0, data));
                                self.written.push(slot.0);
                                proof {
                                    assert(tiles_of(out@) =~= tiles_of(handed).push(slot.0));
                                    assert(self.written@ =~= old(self).written@ + tiles_of(out@));
                                }
                            },
                            None => {},
                        }
                        self.next = self.next + 1;
                    },
                }
            }
        }
        proof {
            assert(run + Seq::<Slot>::empty() =~= run);
        }
        out
    }
}

} // verus!
