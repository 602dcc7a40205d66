//! Text as it travels in MAVLink payloads: one byte per character, cut off or padded with NUL.
use vstd::prelude::*;

verus! {

/// How many bytes a parameter name takes up in a payload.
pub const PARAM_ID_LEN: usize = 16;

/// Trusted: `String::push` of std, which appends the given character to the end of the string.
pub assume_specification[ String::push ](s: &mut String, c: char)
    ensures
        final(s)@ == old(s)@.push(c),
;

/// The number of leading bytes of `buf` that are not NUL.
pub open spec fn text_len(buf: Seq<u8>) -> int
    decreases buf.len(),
{
    if buf.len() == 0 || buf[0] == 0 {
        0
    } else {
        1 + text_len(buf.skip(1))
    }
}

/// The text held in `buf`: every byte before the first NUL, taken as the character of that code.
pub open spec fn text_of(buf: Seq<u8>) -> Seq<char> {
    Seq::new(text_len(buf) as nat, |i: int| buf[i] as char)
}

/// The low eight bits of a character's code.
pub open spec fn low_byte(c: char) -> u8 {
    ((c as int) % 256) as u8
}

/// A parameter name as it is sent: the low byte of each of the first sixteen characters, then NULs.
pub open spec fn param_id_of(name: Seq<char>) -> Seq<u8> {
    Seq::new(
        PARAM_ID_LEN as nat,
        |i: int|
            if i < name.len() {
                low_byte(name[i])
            } else {
                0u8
            },
    )
}

/// `text_len` is where the first NUL stands, or the whole length.
pub proof fn lemma_text_len(buf: Seq<u8>)
    ensures
        0 <= text_len(buf) <= buf.len(),
        forall|i: int| 0 <= i < text_len(buf) ==> buf[i] != 0,
        text_len(buf) < buf.len() ==> buf[text_len(buf)] == 0,
    decreases buf.len(),
{
    if buf.len() > 0 && buf[0] != 0 {
        let rest = buf.skip(1);
        lemma_text_len(rest);
        assert forall|i: int| 0 <= i < text_len(buf) implies buf[i] != 0 by {
            if i > 0 {
                assert(rest[i - 1] == buf[i]);
            }
        }
        if text_len(buf) < buf.len() {
            assert(rest[text_len(rest)] == buf[text_len(buf)]);
        }
    }
}

/// A prefix without NUL that ends at a NUL or at the end is the text.
pub proof fn lemma_text_len_unique(buf: Seq<u8>, n: int)
    requires
        0 <= n <= buf.len(),
        forall|i: int| 0 <= i < n ==> buf[i] != 0,
        n < buf.len() ==> buf[n] == 0,
    ensures
        text_len(buf) == n,
{
    lemma_text_len(buf);
    let t = text_len(buf);
    if t < n {
        assert(buf[t] == 0);
    }
    if n < t {
        assert(buf[n] == 0);
    }
}

/// Whether a parameter name can be sent whole: it has at most sixteen characters, none of them NUL and
/// none beyond the eight-bit range.
pub open spec fn sendable(name: Seq<char>) -> bool {
    &&& name.len() <= PARAM_ID_LEN
    &&& forall|i: int| 0 <= i < name.len() ==> 0 < #[trigger] name[i] as int && (name[i] as int) < 256
}

/// A parameter name is read back from the bytes it is sent as if and only if it can be sent whole.
pub proof fn law_param_id_round_trip(name: Seq<char>)
    ensures
        text_of(param_id_of(name)) == name <==> sendable(name),
{
    let id = param_id_of(name);
    if sendable(name) {
        assert forall|i: int| 0 <= i < name.len() implies id[i] as char == name[i] && id[i]
            != 0 by {
            assert(0 < name[i] as int && (name[i] as int) < 256);
            assert(id[i] as int == name[i] as int);
        }
        lemma_text_len_unique(id, name.len() as int);
        assert(text_of(id) =~= name);
    }
    if text_of(id) == name {
        lemma_text_len(id);
        assert forall|i: int| 0 <= i < name.len() implies 0 < #[trigger] name[i] as int && (
        name[i] as int) < 256 by {
            assert(text_of(id)[i] == name[i]);
            assert(id[i] != 0);
            assert(name[i] as int == id[i] as int);
        }
    }
}

/// Decodes the text of a fixed-size field: the bytes before the first NUL, one character each.
pub fn parse_mavlink_string(buf: &[u8]) -> (r: String)
    ensures
        r@ == text_of(buf@),
{
    let mut r: String = String::new();
    let mut i: usize = 0;
    while i < buf.len() && buf[i] != 0
        invariant
            i <= buf.len(),
            r@ == Seq::new(i as nat, |k: int| buf@[k] as char),
            forall|k: int| 0 <= k < i ==> buf@[k] != 0,
        decreases buf.len() - i,
    {
        r.push(buf[i] as char);
        i = i + 1;
    }
    proof {
        lemma_text_len_unique(buf@, i as int);
    }
    r
}

/// Encodes a parameter name for a payload.
pub fn encode_param_id(name: &str) -> (r: [u8; 16])
    ensures
        r@ == param_id_of(name@),
{
    let mut r: [u8; 16] = [0; 16];
    let n: usize = name.unicode_len();
    let mut i: usize = 0;
    while i < PARAM_ID_LEN && i < n
        invariant
            i <= PARAM_ID_LEN,
            i <= n,
            n == name@.len(),
            forall|k: int|
                0 <= k < 16 ==> #[trigger] r@[k] == (if k < i {
                    low_byte(name@[k])
                } else {
                    0u8
                }),
        decreases n - i,
    {
        let c: char = name.get_char(i);
        let code: u32 = c as u32;
        r[i] = (code % 256) as u8;
        i = i + 1;
    }
    assert(r@ =~= param_id_of(name@));
    r
}

/// The characters of a string slice.
pub fn chars_of(s: &str) -> (r: Vec<char>)
    ensures
        r@ == s@,
{
    let mut r: Vec<char> = Vec::new();
    for c in it: s.chars()
        invariant
            r@ == s@.take(it.index()),
            it.seq() == s@,
    {
        r.push(c);
    }
    assert(s@.take(s@.len() as int) =~= s@);
    r
}

/// Whether two string slices hold the same text.
pub fn same_text(a: &str, b: &str) -> (r: bool)
    ensures
        r == (a@ == b@),
{
    a.to_owned() == b.to_owned()
}

/// A text is all of the bytes before the first NUL, or all there are, each taken as the character of
/// that code.
pub proof fn law_text_is_the_bytes_before_nul(before: Seq<u8>, rest: Seq<u8>)
    requires
        forall|i: int| 0 <= i < before.len() ==> before[i] != 0,
        rest.len() > 0 ==> rest[0] == 0,
    ensures
        text_of(before + rest).len() == before.len(),
        forall|i: int|
            0 <= i < before.len() ==> (#[trigger] text_of(before + rest)[i]) as int
                == before[i] as int,
{
    let buf = before + rest;
    assert forall|i: int| 0 <= i < before.len() implies buf[i] != 0 by {
        assert(before[i] != 0);
    }
    lemma_text_len_unique(buf, before.len() as int);
}

/// A parameter name is sent in sixteen bytes. Each tells the code of its character up to multiples of
/// 256, and those beyond the name are NUL.
pub proof fn law_param_id_tells_the_name(name: Seq<char>, i: int)
    requires
        0 <= i < 16,
    ensures
        param_id_of(name).len() == 16,
        i < name.len() ==> (name[i] as int - param_id_of(name)[i] as int) % 256 == 0,
        i >= name.len() ==> param_id_of(name)[i] == 0,
{
}

} // verus!
