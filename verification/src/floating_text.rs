//! Transient text over a tile: damage numbers that rise and merge, and speech
//! that stacks into blocks.

use std::collections::VecDeque;

use vstd::prelude::*;

use crate::chat::input::{is_white_space, trimmed};
use crate::chat::state::{spec_local_channel_color, TextColor};
use crate::conf::{SPEECH_MAX_LINES, SPEECH_MAX_MS, SPEECH_MIN_MS, SPEECH_MS_PER_CHAR};
use crate::map::position::Position;
use crate::text::{parse_i64, read_i64, text_eq};

verus! {

#[derive(Debug, Clone, Copy, PartialEq, Eq, Structural)]
pub enum FloatingTextType {
    HitPoints,
    PlayerMessage,
    CreatureSay,
}

/// How long a damage number lives, in milliseconds.
pub const HP_DURATION_MS: u64 = 1000;
/// A damage number still merges with a new one of its colour while younger than
/// this, in milliseconds: the first two fifths of its life.
pub const HP_MERGE_WINDOW_MS: u64 = 400;

/// The colour a text is drawn in: the one the server sent, else white for a
/// number, the local chat colour for speech and orange for a creature.
pub open spec fn spec_resolve_color(kind: FloatingTextType, color: Option<(u8, u8, u8)>) -> TextColor {
    match color {
        Some((r, g, b)) => TextColor { r, g, b },
        None => match kind {
            FloatingTextType::HitPoints => TextColor { r: 255, g: 255, b: 255 },
            FloatingTextType::PlayerMessage => spec_local_channel_color(),
            FloatingTextType::CreatureSay => TextColor { r: 254, g: 101, b: 0 },
        },
    }
}

pub fn resolve_color(kind: FloatingTextType, color: Option<(u8, u8, u8)>) -> (c: TextColor)
    ensures
        c == spec_resolve_color(kind, color),
{
    match color {
        Some((r, g, b)) => TextColor { r, g, b },
        None => match kind {
            FloatingTextType::HitPoints => TextColor { r: 255, g: 255, b: 255 },
            FloatingTextType::PlayerMessage => TextColor { r: 240, g: 240, b: 0 },
            FloatingTextType::CreatureSay => TextColor { r: 254, g: 101, b: 0 },
        },
    }
}

/// How long a line of speech stays, in milliseconds: a fixed time per
/// character, held between the shortest and the longest a line may stay.
pub open spec fn spec_line_duration(chars: int) -> int {
    let ms = SPEECH_MS_PER_CHAR * chars;
    if ms < SPEECH_MIN_MS {
        SPEECH_MIN_MS as int
    } else if ms > SPEECH_MAX_MS {
        SPEECH_MAX_MS as int
    } else {
        ms
    }
}

pub fn line_duration(chars: usize) -> (ms: u64)
    ensures
        ms == spec_line_duration(chars as int),
{
    if chars as u64 > 200 {
        return SPEECH_MAX_MS;
    }
    let ms = SPEECH_MS_PER_CHAR * (chars as u64);
    if ms < SPEECH_MIN_MS {
        SPEECH_MIN_MS
    } else if ms > SPEECH_MAX_MS {
        SPEECH_MAX_MS
    } else {
        ms
    }
}

/// One line of a speech block and its clock.
#[derive(Debug)]
pub struct SpeechLine {
    pub text: String,
    pub duration_ms: u64,
    pub elapsed_ms: u64,
}

/// A speaker's recent lines over one tile, oldest first.
#[derive(Debug)]
pub struct SpeechBlock {
    pub lines: VecDeque<SpeechLine>,
}

/// Lines joined with line breaks.
pub open spec fn joined(lines: Seq<Seq<char>>) -> Seq<char>
    decreases lines.len(),
{
    if lines.len() == 0 {
        Seq::empty()
    } else if lines.len() == 1 {
        lines[0]
    } else {
        joined(lines.drop_last()) + seq!['\n'] + lines.last()
    }
}

impl SpeechBlock {
    pub open spec fn texts(&self) -> Seq<Seq<char>> {
        self.lines@.map_values(|l: SpeechLine| l.text@)
    }

    /// A block holding the one line `text`, timed by its length.
    pub fn new(text: &str) -> (b: SpeechBlock)
        ensures
            b.texts() == seq![text@],
            b.lines@[0].elapsed_ms == 0,
            b.lines@[0].duration_ms == spec_line_duration(text@.len() as int),
    {
        let mut lines = VecDeque::new();
        lines.push_back(SpeechLine { text: text.to_owned(), duration_ms: line_duration(text.unicode_len()), elapsed_ms: 0 });
        let b = SpeechBlock { lines };
        proof {
            assert(b.texts() =~= seq![text@]);
        }
        b
    }

    /// The block's text: its lines joined with line breaks.
    pub fn compose(&self) -> (s: String)
        ensures
            s@ == joined(self.texts()),
    {
        let mut s = String::new();
        let mut i: usize = 0;
        while i < self.lines.len()
            invariant
                i <= self.lines@.len(),
                s@ == joined(self.texts().take(i as int)),
            decreases self.lines@.len() - i,
        {
            proof {
                assert(self.texts().take(i as int + 1).drop_last() =~= self.texts().take(i as int));
            }
            if i > 0 {
                s.append("\n");
                proof {
                    reveal_strlit("\n");
                }
            }
            s.append(self.lines[i].text.as_str());
            proof {
                if i == 0 {
                    assert(s@ =~= joined(self.texts().take(1)));
                } else {
                    assert(s@ =~= joined(self.texts().take(i as int + 1)));
                }
            }
            i = i + 1;
        }
        proof {
            assert(self.texts().take(i as int) =~= self.texts());
        }
        s
    }

    /// Adds a line at the bottom, timed by its length; the oldest lines drop
    /// while the block holds more than it may show.
    pub fn push_line(&mut self, text: &str)
        requires
            old(self).lines@.len() <= SPEECH_MAX_LINES,
        ensures
            final(self).lines@.len() <= SPEECH_MAX_LINES,
            old(self).lines@.len() < SPEECH_MAX_LINES ==> final(self).texts() == old(self).texts().push(
                text@,
            ),
            old(self).lines@.len() == SPEECH_MAX_LINES ==> final(self).texts() == old(self).texts().push(
                text@,
            ).drop_first(),
            final(self).lines@.last().duration_ms == spec_line_duration(text@.len() as int),
            final(self).lines@.last().elapsed_ms == 0,
            final(self).lines@.drop_last() == if old(self).lines@.len() < SPEECH_MAX_LINES {
                old(self).lines@
            } else {
                old(self).lines@.drop_first()
            },
    {
        let line = SpeechLine { text: text.to_owned(), duration_ms: line_duration(text.unicode_len()), elapsed_ms: 0 };
        let ghost pushed = self.lines@.push(line);
        self.lines.push_back(line);
        if self.lines.len() > SPEECH_MAX_LINES {
            self.lines.pop_front();
        }
        proof {
            if old(self).lines@.len() == SPEECH_MAX_LINES {
                assert(self.lines@ =~= pushed.drop_first());
                assert(self.texts() =~= old(self).texts().push(text@).drop_first());
                assert(self.lines@.drop_last() =~= old(self).lines@.drop_first());
            } else {
                assert(self.lines@ =~= pushed);
                assert(self.texts() =~= old(self).texts().push(text@));
                assert(self.lines@.drop_last() =~= old(self).lines@);
            }
        }
    }

    /// Runs every line's clock on by `delta_ms` and drops the lines whose time
    /// is up. Returns whether any line dropped.
    pub fn tick(&mut self, delta_ms: u64) -> (changed: bool)
        ensures
            changed == (final(self).lines@.len() != old(self).lines@.len()),
            final(self).texts() == surviving(old(self).lines@, delta_ms),
    {
        let before = self.lines.len();
        let mut kept: VecDeque<SpeechLine> = VecDeque::new();
        let ghost old_lines = self.lines@;
        let mut i: usize = 0;
        while i < before
            invariant
                before == old_lines.len(),
                i <= before,
                self.lines@ == old_lines.skip(i as int),
                kept@.map_values(|l: SpeechLine| l.text@) == surviving(old_lines.take(i as int), delta_ms),
            decreases before - i,
        {
            proof {
                assert(old_lines.skip(i as int)[0] == old_lines[i as int]);
            }
            let mut line = self.lines.pop_front().unwrap();
            proof {
                assert(old_lines.take(i as int + 1).drop_last() =~= old_lines.take(i as int));
                assert(old_lines.skip(i as int + 1) =~= old_lines.skip(i as int).drop_first());
            }
            let d = line.duration_ms;
            let e = if delta_ms > d || line.elapsed_ms > d - delta_ms {
                d
            } else {
                line.elapsed_ms + delta_ms
            };
            if e < d {
                let ghost text = line.text@;
                line.elapsed_ms = e;
                let ghost before_push = kept@;
                kept.push_back(line);
                proof {
                    assert(kept@.map_values(|l: SpeechLine| l.text@) =~= before_push.map_values(
                        |l: SpeechLine| l.text@,
                    ).push(text));
                }
            }
            i = i + 1;
        }
        proof {
            assert(old_lines.take(before as int) =~= old_lines);
        }
        self.lines = kept;
        self.lines.len() != before
    }
}

/// The texts of the lines still showing after `delta_ms` more, oldest first.
pub open spec fn surviving(lines: Seq<SpeechLine>, delta_ms: u64) -> Seq<Seq<char>>
    decreases lines.len(),
{
    if lines.len() == 0 {
        Seq::empty()
    } else {
        let rest = surviving(lines.drop_last(), delta_ms);
        if !line_expires(lines.last(), delta_ms) {
            rest.push(lines.last().text@)
        } else {
            rest
        }
    }
}

/// Whether a line's time is up after `delta_ms` more.
pub open spec fn line_expires(l: SpeechLine, delta_ms: u64) -> bool {
    l.elapsed_ms + delta_ms >= l.duration_ms
}

/// A damage number already over the arriving one's tile.
#[derive(Debug, Clone, Copy, PartialEq, Eq, Structural)]
pub struct LiveHitPoints {
    pub id: u64,
    pub value: Option<i64>,
    pub color: TextColor,
    pub elapsed_ms: u64,
    pub spawned_at_ns: u64,
}

/// What an arriving damage number does.
#[derive(Debug, Clone, Copy, PartialEq, Eq, Structural)]
pub enum HpArrival {
    /// Fold into the live number `target`, which now shows `sum`.
    Merge { target: u64, sum: i64 },
    /// Appear as a number of its own.
    Spawn,
}

/// A live number an arriving `value` of `color` may merge into: a number, of the
/// same colour, still inside the merge window.
pub open spec fn merges_into(l: LiveHitPoints, value: Option<i64>, color: TextColor) -> bool {
    &&& value is Some
    &&& l.value is Some
    &&& l.color == color
    &&& l.elapsed_ms < HP_MERGE_WINDOW_MS
}

/// Whether `live[i]` is where an arriving number goes: it can take the number,
/// nothing that can is newer, and of the equally new it comes first.
pub open spec fn merge_target(live: Seq<LiveHitPoints>, value: Option<i64>, color: TextColor, i: int) -> bool {
    &&& 0 <= i < live.len()
    &&& merges_into(live[i], value, color)
    &&& forall|j: int|
        0 <= j < live.len() && #[trigger] merges_into(live[j], value, color) ==> live[j].spawned_at_ns
            <= live[i].spawned_at_ns && (j < i ==> live[j].spawned_at_ns < live[i].spawned_at_ns)
}

/// Decides an arriving damage number over a tile whose live numbers are `live`:
/// it folds into the newest live number it can merge with, summing the two,
/// and otherwise spawns. A burst of hits collapses into the freshest number,
/// but an older one is used when the newest cannot take it. The sum must fit
/// an `i64`.
pub fn plan_hit_points(live: &Vec<LiveHitPoints>, value: Option<i64>, color: TextColor) -> (a: HpArrival)
    requires
        forall|i: int|
            #[trigger] merge_target(live@, value, color, i) ==> i64::MIN <= live@[i].value.unwrap()
                + value.unwrap() <= i64::MAX,
    ensures
        a is Spawn <==> forall|j: int| 0 <= j < live@.len() ==> !#[trigger] merges_into(live@[j], value, color),
        a matches HpArrival::Merge { target, sum } ==> exists|i: int|
            merge_target(live@, value, color, i) && #[trigger] live@[i].id == target && sum == live@[i].value.unwrap()
                + value.unwrap(),
{
    let v = match value {
        None => {
            return HpArrival::Spawn;
        },
        Some(v) => v,
    };
    let mut best: Option<usize> = None;
    let mut i: usize = 0;
    while i < live.len()
        invariant
            value == Some(v),
            i <= live@.len(),
            best matches Some(b) ==> b < i && merges_into(live@[b as int], value, color) && forall|j: int|
                0 <= j < i && #[trigger] merges_into(live@[j], value, color) ==> live@[j].spawned_at_ns
                    <= live@[b as int].spawned_at_ns && (j < b ==> live@[j].spawned_at_ns
                    < live@[b as int].spawned_at_ns),
            best is None ==> forall|j: int| 0 <= j < i ==> !#[trigger] merges_into(live@[j], value, color),
        decreases live@.len() - i,
    {
        let l = live[i];
        let eligible = match l.value {
            Some(_) => l.color == color && l.elapsed_ms < HP_MERGE_WINDOW_MS,
            None => false,
        };
        if eligible {
            match best {
                None => {
                    best = Some(i);
                },
                Some(b) => {
                    if l.spawned_at_ns > live[b].spawned_at_ns {
                        best = Some(i);
                    }
                },
            }
        }
        i = i + 1;
    }
    match best {
        None => HpArrival::Spawn,
        Some(b) => {
            let existing = live[b].value.unwrap();
            proof {
                assert(merge_target(live@, value, color, b as int));
            }
            let sum = existing + v;
            HpArrival::Merge { target: live[b].id, sum }
        },
    }
}

/// The number a damage text shows, read once the text is trimmed of white space;
/// `None` when it is not an integer that fits.
pub fn parse_hit_points(text: &str) -> (v: Option<i64>)
    ensures
        exists|from: int, to: int|
            #[trigger] trimmed(text@, from, to) && v == read_i64(text@.subrange(from, to)),
{
    let len = text.unicode_len();
    let mut from: usize = 0;
    while from < len && white_space_char(text.get_char(from))
        invariant
            len == text@.len(),
            from <= len,
            forall|i: int| 0 <= i < from ==> is_white_space(#[trigger] text@[i]),
        decreases len - from,
    {
        from = from + 1;
    }
    let mut to: usize = len;
    while to > from && white_space_char(text.get_char(to - 1))
        invariant
            len == text@.len(),
            from <= to <= len,
            forall|i: int| 0 <= i < from ==> is_white_space(#[trigger] text@[i]),
            forall|i: int| to <= i < len ==> is_white_space(#[trigger] text@[i]),
            from < len ==> !is_white_space(text@[from as int]),
        decreases to,
    {
        to = to - 1;
    }
    let core = text.substring_char(from, to);
    let v = parse_i64(core);
    proof {
        assert(trimmed(text@, from as int, to as int));
    }
    v
}

fn white_space_char(c: char) -> (b: bool)
    ensures
        b == is_white_space(c),
{
    let u = c as u32;
    (0x9 <= u && u <= 0xD) || u == 0x20 || u == 0x85 || u == 0xA0 || u == 0x1680 || (0x2000 <= u
        && u <= 0x200A) || u == 0x2028 || u == 0x2029 || u == 0x202F || u == 0x205F || u == 0x3000
}

/// The white space trimmed off a text is the same whichever way it is cut:
/// only an all-white text admits more than one cut, and every one is empty.
pub proof fn lemma_trim_unique(s: Seq<char>, from: int, to: int, f: int, t: int)
    requires
        trimmed(s, from, to),
        trimmed(s, f, t),
    ensures
        s.subrange(from, to) == s.subrange(f, t),
{
    if f < t && from < to {
        if f < from {
            assert(is_white_space(s[f]));
        }
        if from < f {
            assert(is_white_space(s[from]));
        }
        if t < to {
            assert(is_white_space(s[to - 1]));
        }
        if to < t {
            assert(is_white_space(s[t - 1]));
        }
    } else if f < t {
        if f < from {
            assert(is_white_space(s[f]));
        } else {
            assert(f >= to);
            assert(is_white_space(s[f]));
        }
    } else if from < to {
        if from < f {
            assert(is_white_space(s[from]));
        } else {
            assert(from >= t);
            assert(is_white_space(s[from]));
        }
    } else {
        assert(s.subrange(from, to) =~= s.subrange(f, t));
    }
}


/// What a speech block is kept apart by: the tile it hangs over, its kind, and
/// who spoke it.
#[derive(Debug, Clone)]
pub struct SpeechKey {
    pub anchor: Position,
    pub kind: FloatingTextType,
    pub speaker: Option<String>,
}

pub open spec fn speaker_view(speaker: Option<String>) -> Option<Seq<char>> {
    match speaker {
        Some(s) => Some(s@),
        None => None,
    }
}

/// Whether a line keyed `key` joins the block keyed `block`.
pub open spec fn joins(block: SpeechKey, key: SpeechKey) -> bool {
    &&& block.anchor == key.anchor
    &&& block.kind == key.kind
    &&& speaker_view(block.speaker) == speaker_view(key.speaker)
}

fn same_speaker(a: &Option<String>, b: &Option<String>) -> (eq: bool)
    ensures
        eq == (speaker_view(*a) == speaker_view(*b)),
{
    match (a, b) {
        (Some(x), Some(y)) => text_eq(x.as_str(), y.as_str()),
        (None, None) => true,
        _ => false,
    }
}

/// The block a new line of speech keyed `key` goes into: the first of `blocks`
/// on the same tile, of the same kind and by the same speaker; `None` when the
/// line starts a block of its own.
pub fn find_speech_block(blocks: &Vec<SpeechKey>, key: &SpeechKey) -> (found: Option<usize>)
    ensures
        found matches Some(i) ==> i < blocks@.len() && joins(blocks@[i as int], *key) && forall|j: int|
            0 <= j < i ==> !joins(#[trigger] blocks@[j], *key),
        found is None ==> forall|j: int| 0 <= j < blocks@.len() ==> !joins(#[trigger] blocks@[j], *key),
{
    let mut i: usize = 0;
    while i < blocks.len()
        invariant
            i <= blocks@.len(),
            forall|j: int| 0 <= j < i ==> !joins(#[trigger] blocks@[j], *key),
        decreases blocks@.len() - i,
    {
        let b = &blocks[i];
        if b.anchor == key.anchor && b.kind == key.kind && same_speaker(&b.speaker, &key.speaker) {
            return Some(i);
        }
        i = i + 1;
    }
    None
}

/// The speech blocks over the map: `keys[i]` keys `blocks[i]`, oldest first.
#[derive(Debug)]
pub struct SpeechBoard {
    pub keys: Vec<SpeechKey>,
    pub blocks: Vec<SpeechBlock>,
}

impl SpeechBoard {
    /// Every block has its key, and holds from one line to as many as it shows.
    pub open spec fn wf(&self) -> bool {
        &&& self.keys@.len() == self.blocks@.len()
        &&& forall|i: int|
            0 <= i < self.blocks@.len() ==> 0 < (#[trigger] self.blocks@[i]).lines@.len() <= SPEECH_MAX_LINES
    }

    pub fn new() -> (b: SpeechBoard)
        ensures
            b.wf(),
            b.keys@.len() == 0,
    {
        SpeechBoard { keys: Vec::new(), blocks: Vec::new() }
    }

    /// A line of speech keyed `key`: it joins the first block on its tile, of its
    /// kind and by its speaker, dropping that block's oldest line past the cap,
    /// or else starts a block of its own after the others. Returns the block it
    /// joined.
    pub fn on_speech(&mut self, key: SpeechKey, text: &str) -> (joined: Option<usize>)
        requires
            old(self).wf(),
        ensures
            final(self).wf(),
            joined matches Some(i) ==> {
                &&& i < old(self).keys@.len()
                &&& joins(old(self).keys@[i as int], key)
                &&& forall|j: int| 0 <= j < i ==> !joins(#[trigger] old(self).keys@[j], key)
                &&& final(self).keys@ == old(self).keys@
                &&& final(self).blocks@.len() == old(self).blocks@.len()
                &&& forall|j: int|
                    0 <= j < old(self).blocks@.len() && j != i ==> #[trigger] final(self).blocks@[j]
                        == old(self).blocks@[j]
                &&& final(self).blocks@[i as int].texts() == if old(self).blocks@[i as int].lines@.len()
                    < SPEECH_MAX_LINES {
                    old(self).blocks@[i as int].texts().push(text@)
                } else {
                    old(self).blocks@[i as int].texts().push(text@).drop_first()
                }
                &&& final(self).blocks@[i as int].lines@.last().duration_ms == spec_line_duration(text@.len() as int)
                &&& final(self).blocks@[i as int].lines@.last().elapsed_ms == 0
                &&& final(self).blocks@[i as int].lines@.drop_last() == if old(self).blocks@[i as int].lines@.len()
                    < SPEECH_MAX_LINES {
                    old(self).blocks@[i as int].lines@
                } else {
                    old(self).blocks@[i as int].lines@.drop_first()
                }
            },
            joined is None ==> {
                &&& forall|j: int| 0 <= j < old(self).keys@.len() ==> !joins(#[trigger] old(self).keys@[j], key)
                &&& final(self).keys@ == old(self).keys@.push(key)
                &&& final(self).blocks@.len() == old(self).blocks@.len() + 1
                &&& forall|j: int|
                    0 <= j < old(self).blocks@.len() ==> #[trigger] final(self).blocks@[j] == old(self).blocks@[j]
                &&& final(self).blocks@.last().texts() == seq![text@]
                &&& final(self).blocks@.last().lines@[0].duration_ms == spec_line_duration(text@.len() as int)
                &&& final(self).blocks@.last().lines@[0].elapsed_ms == 0
            },
    {
        match find_speech_block(&self.keys, &key) {
            Some(i) => {
                let ghost before = self.blocks@;
                let mut block = self.blocks.remove(i);
                assert(block == before[i as int]);
                block.push_line(text);
                assert(block.texts().len() == block.lines@.len());
                assert(block.lines@.len() > 0);
                self.blocks.insert(i, block);
                proof {
                    assert forall|j: int| 0 <= j < self.blocks@.len() implies 0 < (
                    #[trigger] self.blocks@[j]).lines@.len() <= SPEECH_MAX_LINES by {
                        if j < i {
                            assert(self.blocks@[j] == before[j]);
                        } else if j > i {
                            assert(self.blocks@[j] == before[j]);
                        } else {
                            assert(self.blocks@[j] == block);
                        }
                    }
                    assert forall|j: int|
                        0 <= j < before.len() && j != i implies #[trigger] self.blocks@[j] == before[j] by {
                    }
                }
                Some(i)
            },
            None => {
                self.keys.push(key);
                let block = SpeechBlock::new(text);
                assert(block.texts().len() == block.lines@.len());
                self.blocks.push(block);
                None
            },
        }
    }
}
} // verus!
