//! The polling service's state and decisions: which blocks to poll next, how the blocks
//! of the unconfirmed window are tracked for forks, and the line that reports a block.

use vstd::prelude::*;
use std::collections::BTreeMap;
use vstd::std_specs::iter::IteratorSpec;
use crate::difficulty::{dec_str_u256, Difficulty};
use crate::env::Env;
use crate::result::{DecStrError, Error};
use crate::text::{
    decimal_text, hex_digit_value, hex_text, lemma_decimal_round_trip, lemma_decimal_text_reads_back,
    lemma_hex_text_reads_back, push_char, push_decimal, push_hex, str_eq,
};
use crate::num::parse_unsigned_spec;
use crate::types::FirehoseBlock;

verus! {

/// What the service remembers of a block in the unconfirmed window.
#[derive(Debug)]
pub struct BlockInfo {
    pub indep_hash: String,
    pub cumulative_diff: Difficulty,
}

pub ghost struct BlockInfoView {
    pub indep_hash: Seq<char>,
    pub cumulative_diff: nat,
}

impl View for BlockInfo {
    type V = BlockInfoView;

    open spec fn view(&self) -> BlockInfoView {
        BlockInfoView { indep_hash: self.indep_hash@, cumulative_diff: self.cumulative_diff.value() }
    }
}

/// polling service
pub struct Polling {
    batch: usize,
    block_time: u64,
    confirms: u64,
    end: Option<u64>,
    latest: u64,
    live_blocks: BTreeMap<u64, BlockInfo>,
    ptr: u64,
}

pub ghost struct PollingView {
    /// how many blocks are polled at one time
    pub batch: usize,
    /// time cost for producing a new block, in milliseconds
    pub block_time: u64,
    /// how many blocks below the latest one are safe against reorganisation
    pub confirms: u64,
    /// the height to stop before, if any
    pub end: Option<u64>,
    /// the latest height known
    pub latest: u64,
    /// the blocks of the unconfirmed window, by height
    pub live: Map<u64, BlockInfoView>,
    /// the next height to poll
    pub ptr: u64,
}

impl View for Polling {
    type V = PollingView;

    closed spec fn view(&self) -> PollingView {
        PollingView {
            batch: self.batch,
            block_time: self.block_time,
            confirms: self.confirms,
            end: self.end,
            latest: self.latest,
            live: self.live_blocks@.map_values(|i: BlockInfo| i@),
            ptr: self.ptr,
        }
    }
}

/// The text of a block's cumulative difficulty; a block without one counts as `0`.
pub open spec fn difficulty_text(b: FirehoseBlock) -> Seq<char> {
    match b.cumulative_diff {
        Some(s) => s@,
        None => "0"@,
    }
}

/// A block's cumulative difficulty, or why its text cannot be read.
pub open spec fn block_difficulty(b: FirehoseBlock) -> Result<nat, DecStrError> {
    dec_str_u256(difficulty_text(b))
}

/// Whether the cumulative difficulty of every block can be read.
pub open spec fn difficulties_readable(blocks: Seq<FirehoseBlock>) -> bool {
    forall|i: int| 0 <= i < blocks.len() ==> #[trigger] block_difficulty(blocks[i]) is Ok
}

/// Whether a height is still in the unconfirmed window.
pub open spec fn in_window(height: u64, confirms: u64, latest: u64) -> bool {
    height + confirms > latest
}

/// Whether a batch is stale: empty, or with its last block already safe from reorganisation.
pub open spec fn batch_is_stale(blocks: Seq<FirehoseBlock>, confirms: u64, latest: u64) -> bool {
    blocks.len() == 0 || blocks.last().height + confirms < latest
}

/// Whether a block displaces what the window holds at its height: it is a different block
/// of a chain with strictly more cumulative difficulty.
pub open spec fn displaces(held: BlockInfoView, b: FirehoseBlock, difficulty: nat) -> bool {
    held.indep_hash != b.indep_hash@ && difficulty > held.cumulative_diff
}

/// The window after one block with the given cumulative difficulty: a block at a height
/// that the window holds is taken only where it displaces the one held; a block is
/// recorded only where its height is in the window.
pub open spec fn apply_block(
    live: Map<u64, BlockInfoView>,
    b: FirehoseBlock,
    difficulty: nat,
    confirms: u64,
    latest: u64,
) -> Map<u64, BlockInfoView> {
    if live.contains_key(b.height) && !displaces(live[b.height], b, difficulty) {
        live
    } else if in_window(b.height, confirms, latest) {
        live.insert(b.height, BlockInfoView { indep_hash: b.indep_hash@, cumulative_diff: difficulty })
    } else {
        live
    }
}

/// The window after the blocks, one after the other (a block whose difficulty cannot be
/// read leaves it as it is).
pub open spec fn apply_blocks(
    live: Map<u64, BlockInfoView>,
    blocks: Seq<FirehoseBlock>,
    confirms: u64,
    latest: u64,
) -> Map<u64, BlockInfoView>
    decreases blocks.len(),
{
    if blocks.len() == 0 {
        live
    } else {
        let before = apply_blocks(live, blocks.drop_last(), confirms, latest);
        match block_difficulty(blocks.last()) {
            Ok(d) => apply_block(before, blocks.last(), d, confirms, latest),
            Err(_) => before,
        }
    }
}

/// The window without the heights that are no longer in it.
pub open spec fn trim(live: Map<u64, BlockInfoView>, confirms: u64, latest: u64) -> Map<u64, BlockInfoView> {
    live.restrict(Set::new(|h: u64| in_window(h, confirms, latest)))
}

impl Polling {
    #[verifier::type_invariant]
    spec fn no_overflow(self) -> bool {
        forall|h: u64| #[trigger] self.live_blocks@.contains_key(h) ==> h + self.confirms <= u64::MAX
    }

    /// new polling service, from the starting height, the height to stop before (if any),
    /// the configuration and the latest height of the chain
    pub fn new(ptr: u64, end: Option<u64>, env: &Env, latest: u64) -> (res: Self)
        ensures
            res@ == (PollingView {
                batch: env.polling_batch_blocks as usize,
                block_time: env.block_time,
                confirms: env.polling_safe_blocks,
                end,
                latest,
                live: Map::empty(),
                ptr,
            }),
    {
        let res = Polling {
            batch: env.polling_batch_blocks as usize,
            block_time: env.block_time,
            confirms: env.polling_safe_blocks,
            end,
            latest,
            live_blocks: BTreeMap::new(),
            ptr,
        };
        assert(res@.live =~= Map::<u64, BlockInfoView>::empty());
        res
    }

    /// compare blocks with current live blocks
    pub fn cmp_live_blocks(&mut self, blocks: &[FirehoseBlock]) -> (res: Result<(), Error>)
        requires
            blocks@.len() > 0 ==> blocks@.last().height + old(self)@.confirms <= u64::MAX,
            !batch_is_stale(blocks@, old(self)@.confirms, old(self)@.latest) ==> forall|i: int|
                0 <= i < blocks@.len() ==> #[trigger] blocks@[i].height + old(self)@.confirms <= u64::MAX,
        ensures
            final(self)@ == (PollingView { live: final(self)@.live, ..old(self)@ }),
            batch_is_stale(blocks@, old(self)@.confirms, old(self)@.latest) ==> res is Ok
                && final(self)@.live == old(self)@.live,
            !batch_is_stale(blocks@, old(self)@.confirms, old(self)@.latest) ==> {
                &&& (res is Ok <==> difficulties_readable(blocks@))
                &&& res is Ok ==> final(self)@.live == trim(
                    apply_blocks(old(self)@.live, blocks@, old(self)@.confirms, old(self)@.latest),
                    old(self)@.confirms,
                    old(self)@.latest,
                )
                &&& res matches Err(e) ==> exists|i: int|
                    0 <= i < blocks@.len() && difficulties_readable(#[trigger] blocks@.take(i))
                        && block_difficulty(blocks@[i]) is Err && e == Error::Uint(block_difficulty(blocks@[i])->Err_0)
                        && final(self)@.live == apply_blocks(
                        old(self)@.live,
                        blocks@.take(i),
                        old(self)@.confirms,
                        old(self)@.latest,
                    )
            },
    {
        let n = blocks.len();
        if n == 0 {
            return Ok(());
        }
        let last_height = blocks[n - 1].height;
        proof {
            use_type_invariant(&*self);
        }
        if last_height + self.confirms < self.latest {
            return Ok(());
        }
        match self.track_blocks(blocks) {
            Ok(()) => {},
            Err(e) => return Err(e),
        }
        self.trim_window();
        Ok(())
    }

    /// Takes the blocks into the window one after the other; the first whose difficulty
    /// cannot be read stops it.
    fn track_blocks(&mut self, blocks: &[FirehoseBlock]) -> (res: Result<(), Error>)
        requires
            forall|i: int| 0 <= i < blocks@.len() ==> #[trigger] blocks@[i].height + old(self)@.confirms <= u64::MAX,
        ensures
            final(self)@ == (PollingView { live: final(self)@.live, ..old(self)@ }),
            res is Ok <==> difficulties_readable(blocks@),
            res is Ok ==> final(self)@.live == apply_blocks(
                old(self)@.live,
                blocks@,
                old(self)@.confirms,
                old(self)@.latest,
            ),
            res matches Err(e) ==> exists|i: int|
                0 <= i < blocks@.len() && difficulties_readable(#[trigger] blocks@.take(i))
                    && block_difficulty(blocks@[i]) is Err && e == Error::Uint(block_difficulty(blocks@[i])->Err_0)
                    && final(self)@.live == apply_blocks(
                    old(self)@.live,
                    blocks@.take(i),
                    old(self)@.confirms,
                    old(self)@.latest,
                ),
    {
        let n = blocks.len();
        let ghost live0 = self@.live;
        let ghost confirms = self.confirms;
        let ghost latest = self.latest;
        let mut i: usize = 0;
        assert(blocks@.take(0) =~= Seq::<FirehoseBlock>::empty());
        while i < n
            invariant
                i <= n,
                n == blocks@.len(),
                forall|j: int| 0 <= j < blocks@.len() ==> #[trigger] blocks@[j].height + confirms <= u64::MAX,
                self@ == (PollingView { live: self@.live, ..old(self)@ }),
                confirms == old(self)@.confirms,
                latest == old(self)@.latest,
                live0 == old(self)@.live,
                difficulties_readable(blocks@.take(i as int)),
                self@.live == apply_blocks(live0, blocks@.take(i as int), confirms, latest),
            decreases n - i,
        {
            let b = &blocks[i];
            assert(blocks@.take(i + 1).drop_last() =~= blocks@.take(i as int));
            assert(blocks@.take(i + 1).last() == *b);
            match self.track_block(b) {
                Ok(()) => {},
                Err(e) => {
                    assert(difficulties_readable(blocks@.take(i as int)));
                    return Err(e);
                },
            }
            assert forall|j: int| 0 <= j < i + 1 implies #[trigger] block_difficulty(
                blocks@.take(i + 1)[j],
            ) is Ok by {
                if j < i {
                    assert(blocks@.take(i + 1)[j] == blocks@.take(i as int)[j]);
                }
            }
            i = i + 1;
        }
        assert(blocks@.take(n as int) =~= blocks@);
        Ok(())
    }

    /// Takes one block into the window.
    fn track_block(&mut self, b: &FirehoseBlock) -> (res: Result<(), Error>)
        requires
            b.height + old(self)@.confirms <= u64::MAX,
        ensures
            final(self)@ == (PollingView { live: final(self)@.live, ..old(self)@ }),
            match block_difficulty(*b) {
                Ok(d) => res is Ok && final(self)@.live == apply_block(
                    old(self)@.live,
                    *b,
                    d,
                    old(self)@.confirms,
                    old(self)@.latest,
                ),
                Err(d) => res == Err::<(), Error>(Error::Uint(d)) && final(self)@.live == old(self)@.live,
            },
    {
        proof {
            use_type_invariant(&*self);
        }
        let text: &str = match &b.cumulative_diff {
            Some(s) => s.as_str(),
            None => "0",
        };
        assert(text@ == difficulty_text(*b));
        let cd = match Difficulty::from_dec_str(text) {
            Ok(d) => d,
            Err(e) => {
                return Err(Error::Uint(e));
            },
        };
        let skip = match self.live_blocks.get(&b.height) {
            Some(held) => !(!str_eq(held.indep_hash.as_str(), b.indep_hash.as_str())
                && cd.gt(&held.cumulative_diff)),
            None => false,
        };
        if !skip && b.height + self.confirms > self.latest {
            let info = BlockInfo { indep_hash: b.indep_hash.clone(), cumulative_diff: cd };
            let ghost before = self.live_blocks@;
            let mut live: BTreeMap<u64, BlockInfo> = BTreeMap::new();
            std::mem::swap(&mut live, &mut self.live_blocks);
            live.insert(b.height, info);
            self.live_blocks = live;
            assert(self.live_blocks@.map_values(|i: BlockInfo| i@) =~= before.map_values(
                |i: BlockInfo| i@,
            ).insert(b.height, info@));
        }
        Ok(())
    }

    /// Drops the heights that are no longer in the window.
    fn trim_window(&mut self)
        ensures
            final(self)@ == (PollingView {
                live: trim(old(self)@.live, old(self)@.confirms, old(self)@.latest),
                ..old(self)@
            }),
    {
        proof {
            use_type_invariant(&*self);
        }
        let ghost m = self.live_blocks@;
        let ghost confirms = self.confirms;
        let ghost latest = self.latest;
        let mut heights: Vec<u64> = Vec::new();
        let keys = self.live_blocks.keys();
        let ghost all = keys.remaining();
        assert(all.unref().to_set() == m.dom());
        for h in it: keys
            invariant
                it.seq() == all,
                heights@ =~= it.seq().unref().take(it.index() as int),
        {
            heights.push(*h);
        }
        assert(heights@ =~= all.unref());
        assert(heights@.to_set() =~= m.dom());
        let n = heights.len();
        let mut j: usize = 0;
        while j < n
            invariant
                j <= n,
                n == heights@.len(),
                heights@.to_set() == m.dom(),
                forall|h: u64| #[trigger] m.contains_key(h) ==> h + confirms <= u64::MAX,
                self@ == (PollingView { live: self@.live, ..old(self)@ }),
                confirms == old(self)@.confirms,
                latest == old(self)@.latest,
                m.map_values(|i: BlockInfo| i@) == old(self)@.live,
                forall|h: u64| #[trigger] self.live_blocks@.contains_key(h) <==> (m.contains_key(h) && (
                    in_window(h, confirms, latest) || !heights@.take(j as int).contains(h))),
                forall|h: u64| #[trigger] self.live_blocks@.contains_key(h) ==> self.live_blocks@[h] == m[h],
            decreases n - j,
        {
            let h = heights[j];
            assert(heights@.to_set().contains(h));
            let ghost before = self.live_blocks@;
            if !(h + self.confirms > self.latest) {
                let mut live: BTreeMap<u64, BlockInfo> = BTreeMap::new();
                std::mem::swap(&mut live, &mut self.live_blocks);
                live.remove(&h);
                self.live_blocks = live;
                assert(self.live_blocks@ == before.remove(h));
            } else {
                assert(self.live_blocks@ == before);
            }
            assert(heights@.take(j + 1) =~= heights@.take(j as int).push(h));
            assert forall|g: u64| #[trigger] self.live_blocks@.contains_key(g) <==> (m.contains_key(g) && (
                in_window(g, confirms, latest) || !heights@.take(j + 1).contains(g))) by {
                if g != h {
                    assert(heights@.take(j + 1).contains(g) == heights@.take(j as int).contains(g)) by {
                        if heights@.take(j + 1).contains(g) {
                            let k = choose|k: int| 0 <= k < j + 1 && #[trigger] heights@.take(j + 1)[k] == g;
                            assert(k < j);
                            assert(heights@.take(j as int)[k] == g);
                        }
                        if heights@.take(j as int).contains(g) {
                            let k = choose|k: int| 0 <= k < j && #[trigger] heights@.take(j as int)[k] == g;
                            assert(heights@.take(j + 1)[k] == g);
                        }
                    }
                } else {
                    assert(heights@.take(j + 1)[j as int] == h);
                }
            }
            j = j + 1;
        }
        proof {
            assert(heights@.take(n as int) =~= heights@);
            assert forall|h: u64| m.contains_key(h) implies heights@.contains(h) by {
                assert(heights@.to_set().contains(h));
            }
            assert(self@.live =~= trim(old(self)@.live, confirms, latest));
        }
    }
}

/// The heights from `start` up to, but not including, `end`.
pub open spec fn height_range(start: u64, end: u64) -> Seq<u64> {
    Seq::new(if start < end { (end - start) as nat } else { 0 }, |i: int| (start + i) as u64)
}

/// The line that reports a block: `DMLOG BLOCK <HEIGHT> <ENCODED>`, with the encoded block
/// in lowercase hexadecimal.
pub open spec fn dm_log_text(height: u64, encoded: Seq<u8>) -> Seq<char> {
    "DMLOG BLOCK "@ + decimal_text(height as nat) + " "@ + hex_text(encoded)
}

impl Polling {
    /// The heights that remain to be polled: from the pointer up to the end, where there
    /// is one, else up to the latest height.
    pub fn pending(&self) -> (res: Vec<u64>)
        ensures
            res@ == height_range(
                self@.ptr,
                match self@.end {
                    Some(e) => e,
                    None => self@.latest,
                },
            ),
    {
        let end = match self.end {
            Some(e) => e,
            None => self.latest,
        };
        let mut res: Vec<u64> = Vec::new();
        let mut h = self.ptr;
        while h < end
            invariant
                self.ptr <= h || end <= self.ptr,
                h == self.ptr || (self.ptr < end && h <= end),
                res@ =~= height_range(self.ptr, h),
            decreases end - h,
        {
            res.push(h);
            h = h + 1;
        }
        assert(res@ =~= height_range(self@.ptr, end));
        res
    }

    /// Splits the next batch off the heights that remain: at most `batch` of them, from
    /// the front; also gives the height that the pointer moves to once the batch has been
    /// handled, the last of the batch. An empty batch is an error.
    pub fn next_batch(&self, pending: &mut Vec<u64>) -> (res: Result<(Vec<u64>, u64), Error>)
        ensures
            ({
                let n = if old(pending)@.len() > self@.batch { self@.batch as int } else { old(pending)@.len() as int };
                &&& final(pending)@ == old(pending)@.skip(n)
                &&& n == 0 ==> res == Err::<(Vec<u64>, u64), Error>(Error::ParseBlockPtrFailed)
                &&& n > 0 ==> (res matches Ok((b, p)) && b@ == old(pending)@.take(n) && p == b@.last())
            }),
    {
        let mut polling = pending.clone();
        if polling.len() > self.batch {
            *pending = polling.split_off(self.batch);
        } else {
            *pending = Vec::new();
        }
        let n = polling.len();
        if n == 0 {
            return Err(Error::ParseBlockPtrFailed);
        }
        let new_ptr = polling[n - 1];
        proof {
            assert(old(pending)@.skip(old(pending)@.len() as int) =~= Seq::<u64>::empty());
            assert(old(pending)@.take(old(pending)@.len() as int) =~= old(pending)@);
        }
        Ok((polling, new_ptr))
    }

    /// Moves the pointer once a batch has been handled.
    pub fn commit_ptr(&mut self, ptr: u64)
        ensures
            final(self)@ == (PollingView { ptr, ..old(self)@ }),
    {
        proof {
            use_type_invariant(&*self);
        }
        self.ptr = ptr;
    }

    /// Records the latest height of the chain.
    pub fn set_latest(&mut self, latest: u64)
        ensures
            final(self)@ == (PollingView { latest, ..old(self)@ }),
    {
        proof {
            use_type_invariant(&*self);
        }
        self.latest = latest;
    }

    /// The line that reports a block, from its height and its encoded protobuf message;
    /// an empty message is an error.
    pub fn dm_log_line(height: u64, encoded: &[u8]) -> (res: Result<String, Error>)
        ensures
            encoded@.len() == 0 ==> res == Err::<String, Error>(Error::ParseBlockFailed),
            encoded@.len() > 0 ==> (res matches Ok(line) && line@ == dm_log_text(height, encoded@)),
            res matches Ok(line) ==> forall|i: int| 0 <= i < encoded@.len() ==> {
                &&& hex_digit_value(line@[line@.len() - 2 * encoded@.len() + 2 * i]) == #[trigger] encoded@[i] / 16
                &&& hex_digit_value(line@[line@.len() - 2 * encoded@.len() + 2 * i + 1]) == encoded@[i] % 16
            },
    {
        proof {
            lemma_dm_log_line_reads_back(height, encoded@);
        }
        if encoded.len() == 0 {
            return Err(Error::ParseBlockFailed);
        }
        let mut line = "DMLOG BLOCK ".to_owned();
        push_decimal(&mut line, height);
        push_char(&mut line, ' ');
        push_hex(&mut line, encoded);
        proof {
            reveal_strlit(" ");
            assert(line@ =~= dm_log_text(height, encoded@));
        }
        Ok(line)
    }

    /// The next height to poll.
    pub fn ptr(&self) -> (res: u64)
        ensures
            res == self@.ptr,
    {
        self.ptr
    }

    /// The latest height known.
    pub fn latest(&self) -> (res: u64)
        ensures
            res == self@.latest,
    {
        self.latest
    }

    /// The height to stop before, if any.
    pub fn end(&self) -> (res: Option<u64>)
        ensures
            res == self@.end,
    {
        self.end
    }

    /// How many blocks are polled at one time.
    pub fn batch(&self) -> (res: usize)
        ensures
            res == self@.batch,
    {
        self.batch
    }

    /// The time to wait for a new block, in milliseconds.
    pub fn block_time(&self) -> (res: u64)
        ensures
            res == self@.block_time,
    {
        self.block_time
    }

    /// How many blocks below the latest are safe against reorganisation.
    pub fn confirms(&self) -> (res: u64)
        ensures
            res == self@.confirms,
    {
        self.confirms
    }

    /// The blocks of the unconfirmed window, by height.
    pub fn live_blocks(&self) -> (res: &BTreeMap<u64, BlockInfo>)
        ensures
            res@.map_values(|i: BlockInfo| i@) == self@.live,
    {
        &self.live_blocks
    }
}

/// Trimming keeps exactly the heights of the window that are still unconfirmed.
pub proof fn lemma_trim_keeps_window(live: Map<u64, BlockInfoView>, confirms: u64, latest: u64)
    ensures
        forall|h: u64| #[trigger] trim(live, confirms, latest).contains_key(h) <==> (live.contains_key(h)
            && in_window(h, confirms, latest)),
        forall|h: u64| #[trigger] trim(live, confirms, latest).contains_key(h) ==> trim(live, confirms, latest)[h]
            == live[h],
{
}

/// Taking blocks into the window never drops a height and never lowers the cumulative
/// difficulty held at a height; where the block held at a height changes, it is one of a
/// chain with strictly more cumulative difficulty.
pub proof fn lemma_apply_blocks_keeps_heaviest(
    live: Map<u64, BlockInfoView>,
    blocks: Seq<FirehoseBlock>,
    confirms: u64,
    latest: u64,
)
    ensures
        forall|h: u64| #[trigger] live.contains_key(h) ==> {
            let after = apply_blocks(live, blocks, confirms, latest);
            &&& after.contains_key(h)
            &&& after[h].cumulative_diff >= live[h].cumulative_diff
            &&& after[h].indep_hash != live[h].indep_hash ==> after[h].cumulative_diff
                > live[h].cumulative_diff
        },
    decreases blocks.len(),
{
    if blocks.len() > 0 {
        lemma_apply_blocks_keeps_heaviest(live, blocks.drop_last(), confirms, latest);
    }
}

/// A height that the window did not hold is only added by taking in blocks where it is
/// still unconfirmed, and then with a block of that height from the batch.
pub proof fn lemma_apply_blocks_adds_in_window(
    live: Map<u64, BlockInfoView>,
    blocks: Seq<FirehoseBlock>,
    confirms: u64,
    latest: u64,
)
    ensures
        forall|h: u64|
            !live.contains_key(h) && #[trigger] apply_blocks(live, blocks, confirms, latest).contains_key(h)
                ==> in_window(h, confirms, latest) && exists|i: int|
                0 <= i < blocks.len() && blocks[i].height == h && blocks[i].indep_hash@ == apply_blocks(
                    live,
                    blocks,
                    confirms,
                    latest,
                )[h].indep_hash,
    decreases blocks.len(),
{
    if blocks.len() > 0 {
        let prev = blocks.drop_last();
        lemma_apply_blocks_adds_in_window(live, prev, confirms, latest);
        let before = apply_blocks(live, prev, confirms, latest);
        let after = apply_blocks(live, blocks, confirms, latest);
        assert forall|h: u64| !live.contains_key(h) && #[trigger] after.contains_key(h) implies in_window(
            h,
            confirms,
            latest,
        ) && exists|i: int|
            0 <= i < blocks.len() && blocks[i].height == h && blocks[i].indep_hash@ == after[h].indep_hash by {
            if before.contains_key(h) && after[h] == before[h] {
                let i = choose|i: int|
                    0 <= i < prev.len() && prev[i].height == h && prev[i].indep_hash@ == before[h].indep_hash;
                assert(blocks[i] == prev[i]);
            } else {
                assert(blocks[blocks.len() - 1].height == h);
            }
        }
    }
}

/// Splitting a batch off the heights that remain loses none and repeats none: the batch
/// followed by what remains is what there was, and where the batch is not empty what
/// remains is shorter.
pub proof fn lemma_batch_split(pending: Seq<u64>, n: int)
    requires
        0 <= n <= pending.len(),
    ensures
        pending.take(n) + pending.skip(n) == pending,
        n > 0 ==> pending.skip(n).len() < pending.len(),
{
    assert(pending.take(n) + pending.skip(n) =~= pending);
}

/// Whether no two blocks of a batch have the same height.
pub open spec fn distinct_heights(blocks: Seq<FirehoseBlock>) -> bool {
    forall|i: int, j: int|
        0 <= i < blocks.len() && 0 <= j < blocks.len() && i != j ==> #[trigger] blocks[i].height
            != #[trigger] blocks[j].height
}

/// After a batch that is not stale has been taken in, every height of the window is
/// still unconfirmed, and was held before or is the height of a block of the batch.
pub proof fn lemma_window_after_batch(
    live: Map<u64, BlockInfoView>,
    blocks: Seq<FirehoseBlock>,
    confirms: u64,
    latest: u64,
)
    ensures
        forall|h: u64| #[trigger] trim(apply_blocks(live, blocks, confirms, latest), confirms, latest).contains_key(h)
            ==> in_window(h, confirms, latest) && (live.contains_key(h) || exists|i: int|
                0 <= i < blocks.len() && blocks[i].height == h),
{
    let after = apply_blocks(live, blocks, confirms, latest);
    lemma_trim_keeps_window(after, confirms, latest);
    lemma_apply_blocks_adds_in_window(live, blocks, confirms, latest);
    assert forall|h: u64| #[trigger] trim(after, confirms, latest).contains_key(h) implies in_window(
        h,
        confirms,
        latest,
    ) && (live.contains_key(h) || exists|i: int| 0 <= i < blocks.len() && blocks[i].height == h) by {
        assert(after.contains_key(h));
        if !live.contains_key(h) {
            let i = choose|i: int|
                0 <= i < blocks.len() && blocks[i].height == h && blocks[i].indep_hash@ == after[h].indep_hash;
        }
    }
}

/// Blocks of other heights leave what the window holds at a height as it is.
proof fn lemma_apply_blocks_other_heights(
    live: Map<u64, BlockInfoView>,
    blocks: Seq<FirehoseBlock>,
    confirms: u64,
    latest: u64,
    h: u64,
)
    requires
        forall|i: int| 0 <= i < blocks.len() ==> #[trigger] blocks[i].height != h,
    ensures
        apply_blocks(live, blocks, confirms, latest).contains_key(h) == live.contains_key(h),
        live.contains_key(h) ==> apply_blocks(live, blocks, confirms, latest)[h] == live[h],
    decreases blocks.len(),
{
    if blocks.len() > 0 {
        let prev = blocks.drop_last();
        assert forall|i: int| 0 <= i < prev.len() implies #[trigger] prev[i].height != h by {
            assert(prev[i] == blocks[i]);
        }
        lemma_apply_blocks_other_heights(live, prev, confirms, latest, h);
        assert(blocks.last().height != h);
    }
}

/// With distinct heights, what the window holds at the height of a block of the batch is
/// what that block alone makes of it.
proof fn lemma_apply_blocks_at(
    live: Map<u64, BlockInfoView>,
    blocks: Seq<FirehoseBlock>,
    confirms: u64,
    latest: u64,
    i: int,
)
    requires
        0 <= i < blocks.len(),
        distinct_heights(blocks),
        difficulties_readable(blocks),
    ensures
        ({
            let h = blocks[i].height;
            let one = apply_block(live, blocks[i], block_difficulty(blocks[i])->Ok_0, confirms, latest);
            let all = apply_blocks(live, blocks, confirms, latest);
            &&& all.contains_key(h) == one.contains_key(h)
            &&& one.contains_key(h) ==> all[h] == one[h]
        }),
    decreases blocks.len(),
{
    let prev = blocks.drop_last();
    let h = blocks[i].height;
    assert(block_difficulty(blocks[i]) is Ok);
    assert(block_difficulty(blocks.last()) is Ok) by {
        assert(blocks.last() == blocks[blocks.len() - 1]);
    }
    if i == blocks.len() - 1 {
        assert forall|j: int| 0 <= j < prev.len() implies #[trigger] prev[j].height != h by {
            assert(prev[j] == blocks[j]);
        }
        lemma_apply_blocks_other_heights(live, prev, confirms, latest, h);
    } else {
        assert(distinct_heights(prev)) by {
            assert forall|a: int, b: int|
                0 <= a < prev.len() && 0 <= b < prev.len() && a != b implies #[trigger] prev[a].height
                != #[trigger] prev[b].height by {
                assert(prev[a] == blocks[a] && prev[b] == blocks[b]);
            }
        }
        assert(difficulties_readable(prev)) by {
            assert forall|a: int| 0 <= a < prev.len() implies #[trigger] block_difficulty(prev[a]) is Ok by {
                assert(prev[a] == blocks[a]);
            }
        }
        assert(prev[i] == blocks[i]);
        lemma_apply_blocks_at(live, prev, confirms, latest, i);
        assert(blocks.last().height != h) by {
            assert(blocks.last() == blocks[blocks.len() - 1]);
        }
    }
}

/// A window that already holds, at the height of every block of the batch in the window, a
/// block that it does not displace, and nothing at the other heights of the batch, is left
/// as it is by the batch.
proof fn lemma_apply_blocks_fixed(
    live: Map<u64, BlockInfoView>,
    blocks: Seq<FirehoseBlock>,
    confirms: u64,
    latest: u64,
)
    requires
        difficulties_readable(blocks),
        forall|i: int| 0 <= i < blocks.len() ==> {
            let b = #[trigger] blocks[i];
            &&& in_window(b.height, confirms, latest) ==> live.contains_key(b.height) && !displaces(
                live[b.height],
                b,
                block_difficulty(b)->Ok_0,
            )
            &&& !in_window(b.height, confirms, latest) ==> !live.contains_key(b.height)
        },
    ensures
        apply_blocks(live, blocks, confirms, latest) == live,
    decreases blocks.len(),
{
    if blocks.len() > 0 {
        let prev = blocks.drop_last();
        assert forall|a: int| 0 <= a < prev.len() implies #[trigger] block_difficulty(prev[a]) is Ok by {
            assert(prev[a] == blocks[a]);
        }
        assert forall|i: int| 0 <= i < prev.len() implies {
            let b = #[trigger] prev[i];
            &&& in_window(b.height, confirms, latest) ==> live.contains_key(b.height) && !displaces(
                live[b.height],
                b,
                block_difficulty(b)->Ok_0,
            )
            &&& !in_window(b.height, confirms, latest) ==> !live.contains_key(b.height)
        } by {
            assert(prev[i] == blocks[i]);
        }
        lemma_apply_blocks_fixed(live, prev, confirms, latest);
        let b = blocks.last();
        assert(b == blocks[blocks.len() - 1]);
        assert(block_difficulty(b) is Ok);
    }
}

/// Taking in the same batch again, with the latest height unchanged, changes nothing: a
/// second `cmp_live_blocks` with a batch of distinct heights whose difficulties all read
/// leaves the window as the first one left it.
pub proof fn lemma_same_batch_twice(
    live: Map<u64, BlockInfoView>,
    blocks: Seq<FirehoseBlock>,
    confirms: u64,
    latest: u64,
)
    requires
        distinct_heights(blocks),
        difficulties_readable(blocks),
    ensures
        ({
            let once = trim(apply_blocks(live, blocks, confirms, latest), confirms, latest);
            trim(apply_blocks(once, blocks, confirms, latest), confirms, latest) == once
        }),
{
    let after = apply_blocks(live, blocks, confirms, latest);
    let once = trim(after, confirms, latest);
    lemma_trim_keeps_window(after, confirms, latest);
    assert forall|i: int| 0 <= i < blocks.len() implies {
        let b = #[trigger] blocks[i];
        &&& in_window(b.height, confirms, latest) ==> once.contains_key(b.height) && !displaces(
            once[b.height],
            b,
            block_difficulty(b)->Ok_0,
        )
        &&& !in_window(b.height, confirms, latest) ==> !once.contains_key(b.height)
    } by {
        lemma_apply_blocks_at(live, blocks, confirms, latest, i);
    }
    lemma_apply_blocks_fixed(once, blocks, confirms, latest);
    lemma_trim_keeps_window(once, confirms, latest);
    assert(trim(once, confirms, latest) =~= once);
}

/// The line that reports a block reads back as the block: it starts `DMLOG BLOCK `, the
/// height is written in decimal up to the next space and reads back as the height, and the
/// rest, two hexadecimal digits per byte, reads back as the encoded message.
pub proof fn lemma_dm_log_line_reads_back(height: u64, encoded: Seq<u8>)
    ensures
        ({
            let t = dm_log_text(height, encoded);
            let k = t.len() - 2 * encoded.len();
            &&& 13 < k <= t.len()
            &&& t.take(12) == "DMLOG BLOCK "@
            &&& t[k - 1] == ' '
            &&& parse_unsigned_spec(t.subrange(12, k - 1), u64::MAX as nat) == Ok::<nat, crate::result::IntErrorKind>(
                height as nat,
            )
            &&& forall|i: int| 0 <= i < encoded.len() ==> {
                &&& hex_digit_value(t[k + 2 * i]) == #[trigger] encoded[i] / 16
                &&& hex_digit_value(t[k + 2 * i + 1]) == encoded[i] % 16
            }
        }),
{
    reveal_strlit("DMLOG BLOCK ");
    reveal_strlit(" ");
    let a = "DMLOG BLOCK "@;
    let d = decimal_text(height as nat);
    let h = hex_text(encoded);
    let t = dm_log_text(height, encoded);
    lemma_decimal_round_trip(height as nat, u64::MAX as nat);
    lemma_decimal_text_reads_back(height as nat);
    lemma_hex_text_reads_back(encoded);
    assert(t == a + d + " "@ + h);
    let k = t.len() - 2 * encoded.len();
    assert(k == 12 + d.len() + 1);
    assert(t.take(12) =~= a);
    assert(t.subrange(12, k - 1) =~= d);
    assert(t[k - 1] == ' ');
    assert forall|i: int| 0 <= i < encoded.len() implies {
        &&& hex_digit_value(t[k + 2 * i]) == #[trigger] encoded[i] / 16
        &&& hex_digit_value(t[k + 2 * i + 1]) == encoded[i] % 16
    } by {
        assert(t[k + 2 * i] == h[2 * i]);
        assert(t[k + 2 * i + 1] == h[2 * i + 1]);
    }
}

} // verus!
