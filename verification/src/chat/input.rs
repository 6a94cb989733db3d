use vstd::prelude::*;

verus! {

/// The Unicode `White_Space` characters, which `str::trim` strips.
pub open spec fn is_white_space(c: char) -> bool {
    let u = c as u32;
    ||| 0x9 <= u <= 0xD
    ||| u == 0x20
    ||| u == 0x85
    ||| u == 0xA0
    ||| u == 0x1680
    ||| 0x2000 <= u <= 0x200A
    ||| u == 0x2028
    ||| u == 0x2029
    ||| u == 0x202F
    ||| u == 0x205F
    ||| u == 0x3000
}

/// `s` without its leading and trailing white space.
pub open spec fn trimmed(s: Seq<char>, from: int, to: int) -> bool {
    &&& 0 <= from <= to <= s.len()
    &&& forall|i: int| 0 <= i < from ==> is_white_space(#[trigger] s[i])
    &&& forall|i: int| to <= i < s.len() ==> is_white_space(#[trigger] s[i])
    &&& from < to ==> !is_white_space(s[from]) && !is_white_space(s[to - 1])
}

fn white_space(c: char) -> (b: bool)
    ensures
        b == is_white_space(c),
{
    let u = c as u32;
    (0x9 <= u && u <= 0xD) || u == 0x20 || u == 0x85 || u == 0xA0 || u == 0x1680 || (0x2000 <= u
        && u <= 0x200A) || u == 0x2028 || u == 0x2029 || u == 0x202F || u == 0x205F || u == 0x3000
}

/// What a submitted chat line sends: the text trimmed of white space at both
/// ends, or nothing when no text is left.
pub fn submitted_text(text: &str) -> (sent: Option<String>)
    ensures
        sent is None <==> forall|i: int| 0 <= i < text@.len() ==> is_white_space(#[trigger] text@[i]),
        sent matches Some(s) ==> exists|from: int, to: int|
            trimmed(text@, from, to) && from < to && #[trigger] text@.subrange(from, to) == s@,
{
    let n = text.unicode_len();
    let mut from: usize = 0;
    while from < n && white_space(text.get_char(from))
        invariant
            n == text@.len(),
            from <= n,
            forall|i: int| 0 <= i < from ==> is_white_space(#[trigger] text@[i]),
        decreases n - from,
    {
        from = from + 1;
    }
    if from == n {
        return None;
    }
    let mut to: usize = n;
    while to > from && white_space(text.get_char(to - 1))
        invariant
            n == text@.len(),
            from < n,
            from <= to <= n,
            !is_white_space(text@[from as int]),
            forall|i: int| to <= i < n ==> is_white_space(#[trigger] text@[i]),
        decreases to,
    {
        to = to - 1;
    }
    let s = text.substring_char(from, to).to_owned();
    proof {
        assert(trimmed(text@, from as int, to as int));
        assert(text@.subrange(from as int, to as int) == s@);
    }
    Some(s)
}

} // verus!
