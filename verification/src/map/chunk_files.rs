//! How explored-map chunks are named on disk: one directory per floor, one
//! `{cx}_{cy}.bin` file per chunk.

use vstd::prelude::*;

use crate::map::minimap::ChunkKey;
use crate::text::{
    decimal, digits_value, is_unsigned_text, lemma_decimal_reads_back, parse_u16, push_decimal, read_unsigned,
    unsigned_value,
};

verus! {

/// Whether `s` ends in `.bin`.
pub open spec fn ends_with_bin(s: Seq<char>) -> bool {
    &&& s.len() >= 4
    &&& s[s.len() - 4] == '.'
    &&& s[s.len() - 3] == 'b'
    &&& s[s.len() - 2] == 'i'
    &&& s[s.len() - 1] == 'n'
}

/// `s` with every trailing `.bin` taken off.
pub open spec fn strip_bins(s: Seq<char>) -> Seq<char>
    decreases s.len(),
{
    if ends_with_bin(s) {
        strip_bins(s.subrange(0, s.len() - 4))
    } else {
        s
    }
}

/// Whether `j` is where the first `_` of `s` stands.
pub open spec fn first_underscore_at(s: Seq<char>, j: int) -> bool {
    &&& 0 <= j < s.len()
    &&& s[j] == '_'
    &&& forall|i: int| 0 <= i < j ==> s[i] != '_'
}

/// The chunk a file stem names: the number before its first `_` and the one
/// after it, each a `u16`.
pub open spec fn stem_value(stem: Seq<char>) -> Option<(int, int)> {
    if exists|j: int| first_underscore_at(stem, j) {
        let j = choose|j: int| first_underscore_at(stem, j);
        match (read_unsigned(stem.take(j), u16::MAX as int), read_unsigned(stem.skip(j + 1), u16::MAX as int)) {
            (Some(cx), Some(cy)) => Some((cx, cy)),
            _ => None,
        }
    } else {
        None
    }
}

/// The chunk a file in a floor's directory holds, if its name is a chunk's:
/// a `.bin` file whose stem names two coordinates.
pub open spec fn chunk_name_value(name: Seq<char>) -> Option<(int, int)> {
    if ends_with_bin(name) {
        stem_value(strip_bins(name))
    } else {
        None
    }
}

/// The file a chunk is stored in, within its floor's directory.
pub open spec fn chunk_name(cx: u16, cy: u16) -> Seq<char> {
    decimal(cx as nat) + seq!['_'] + decimal(cy as nat) + seq!['.', 'b', 'i', 'n']
}

pub fn chunk_file_name(key: &ChunkKey) -> (name: String)
    ensures
        name@ == chunk_name(key.cx, key.cy),
{
    let mut name = String::new();
    push_decimal(&mut name, key.cx as u64);
    name.append("_");
    push_decimal(&mut name, key.cy as u64);
    name.append(".bin");
    proof {
        reveal_strlit("_");
        reveal_strlit(".bin");
        assert(name@ =~= chunk_name(key.cx, key.cy));
    }
    name
}

/// Whether the first `end` characters of `s` end in `.bin`.
fn bin_suffix_at(s: &str, end: usize) -> (b: bool)
    requires
        end <= s@.len(),
    ensures
        b == ends_with_bin(s@.take(end as int)),
{
    end >= 4 && s.get_char(end - 4) == '.' && s.get_char(end - 3) == 'b' && s.get_char(end - 2) == 'i'
        && s.get_char(end - 1) == 'n'
}

/// The first `_` of a stem is where it is, and nowhere else.
proof fn lemma_first_underscore_unique(s: Seq<char>, j: int, k: int)
    requires
        first_underscore_at(s, j),
        first_underscore_at(s, k),
    ensures
        j == k,
{
}

/// Reads a chunk's coordinates off a file name in a floor's directory; `None`
/// for a file that is not a chunk.
pub fn parse_chunk_file_name(name: &str) -> (r: Option<(u16, u16)>)
    ensures
        r is None <==> chunk_name_value(name@) is None,
        r matches Some((cx, cy)) ==> chunk_name_value(name@) == Some((cx as int, cy as int)),
{
    let len = name.unicode_len();
    if !bin_suffix_at(name, len) {
        proof {
            assert(name@.take(len as int) =~= name@);
        }
        return None;
    }
    proof {
        assert(name@.take(len as int) =~= name@);
    }
    let mut end: usize = len;
    while bin_suffix_at(name, end)
        invariant
            end <= len == name@.len(),
            strip_bins(name@.take(end as int)) == strip_bins(name@),
        decreases end,
    {
        proof {
            assert(name@.take(end as int).subrange(0, end - 4) =~= name@.take(end - 4));
        }
        end = end - 4;
    }
    let ghost stem = name@.take(end as int);
    assert(strip_bins(stem) == stem);
    let mut j: usize = 0;
    while j < end && name.get_char(j) != '_'
        invariant
            j <= end <= len == name@.len(),
            stem == name@.take(end as int),
            forall|i: int| 0 <= i < j ==> stem[i] != '_',
        decreases end - j,
    {
        j = j + 1;
    }
    if j == end {
        proof {
            assert forall|k: int| !first_underscore_at(stem, k) by {
                if first_underscore_at(stem, k) {
                    assert(stem[k] != '_');
                }
            }
        }
        return None;
    }
    proof {
        assert(first_underscore_at(stem, j as int));
        let c = choose|c: int| first_underscore_at(stem, c);
        lemma_first_underscore_unique(stem, j as int, c);
    }
    let left = name.substring_char(0, j);
    let right = name.substring_char(j + 1, end);
    proof {
        assert(left@ =~= stem.take(j as int));
        assert(right@ =~= stem.skip(j + 1));
    }
    match (parse_u16(left), parse_u16(right)) {
        (Some(cx), Some(cy)) => Some((cx, cy)),
        _ => None,
    }
}

/// A chunk's file name reads back as that chunk.
pub proof fn lemma_chunk_name_reads_back(cx: u16, cy: u16)
    ensures
        chunk_name_value(chunk_name(cx, cy)) == Some((cx as int, cy as int)),
{
    let dx = decimal(cx as nat);
    let dy = decimal(cy as nat);
    let name = chunk_name(cx, cy);
    let stem = dx + seq!['_'] + dy;
    lemma_decimal_reads_back(cx as nat);
    lemma_decimal_reads_back(cy as nat);
    assert(name.subrange(0, name.len() - 4) =~= stem);
    assert(stem[stem.len() - 1] == dy[dy.len() - 1]);
    assert(!ends_with_bin(stem));
    assert(strip_bins(stem) == stem);
    assert(strip_bins(name) == stem);
    let j = dx.len() as int;
    assert(stem[j] == '_');
    assert forall|i: int| 0 <= i < j implies stem[i] != '_' by {
        assert(stem[i] == dx[i]);
    }
    assert(first_underscore_at(stem, j));
    let c = choose|c: int| first_underscore_at(stem, c);
    lemma_first_underscore_unique(stem, j, c);
    assert(stem.take(j) =~= dx);
    assert(stem.skip(j + 1) =~= dy);
    assert(is_unsigned_text(dx));
    assert(unsigned_value(dx) == digits_value(dx));
    assert(is_unsigned_text(dy));
    assert(unsigned_value(dy) == digits_value(dy));
}

} // verus!
