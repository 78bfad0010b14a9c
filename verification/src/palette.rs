//! Provider colours: hex colour strings, the accent colours of well-known
//! providers, and the palette slot a name hashes to.

use vstd::prelude::*;

use crate::text::{char_is_space, chars_of, is_space};
use vstd::string::StrSliceExecFns;
use vstd::string::StringSliceAdditionalSpecFns;
use vstd::utf8::encode_utf8;

verus! {

broadcast use vstd::string::group_string_axioms;

/// The value of a hexadecimal digit byte.
pub open spec fn nibble(b: u8) -> Option<u8> {
    if 0x30 <= b <= 0x39 {
        Some((b - 0x30) as u8)
    } else if 0x61 <= b <= 0x66 {
        Some((b - 0x61 + 10) as u8)
    } else if 0x41 <= b <= 0x46 {
        Some((b - 0x41 + 10) as u8)
    } else {
        None
    }
}

/// The byte written by the two hexadecimal digit bytes at `offset`.
pub open spec fn hex_byte(bytes: Seq<u8>, offset: int) -> Option<u8> {
    match (nibble(bytes[offset]), nibble(bytes[offset + 1])) {
        (Some(hi), Some(lo)) => Some((hi * 16 + lo) as u8),
        _ => None,
    }
}

/// The value of the digit byte `byte`, if it is a hexadecimal digit.
pub fn hex_nibble(byte: u8) -> (r: Option<u8>)
    ensures
        r == nibble(byte),
        r matches Some(v) ==> v < 16,
{
    if byte >= 0x30 && byte <= 0x39 {
        Some(byte - 0x30)
    } else if byte >= 0x61 && byte <= 0x66 {
        Some(byte - 0x61 + 10)
    } else if byte >= 0x41 && byte <= 0x46 {
        Some(byte - 0x41 + 10)
    } else {
        None
    }
}

/// The byte written by the two hexadecimal digits at `offset` of `bytes`.
pub fn parse_hex_byte(bytes: &[u8], offset: usize) -> (r: Option<u8>)
    requires
        offset + 1 < bytes@.len(),
    ensures
        r == hex_byte(bytes@, offset as int),
{
    let hi = hex_nibble(bytes[offset])?;
    let lo = hex_nibble(bytes[offset + 1])?;
    Some(hi * 16 + lo)
}

/// `s` without whitespace at either end.
pub open spec fn trimmed(s: Seq<char>) -> Seq<char>
    decreases s.len(),
{
    if s.len() > 0 && is_space(s[0]) {
        trimmed(s.drop_first())
    } else if s.len() > 0 && is_space(s.last()) {
        trimmed(s.drop_last())
    } else {
        s
    }
}

/// `s` without the `#` characters it starts with.
pub open spec fn without_hashes(s: Seq<char>) -> Seq<char>
    decreases s.len(),
{
    if s.len() > 0 && s[0] == '#' {
        without_hashes(s.drop_first())
    } else {
        s
    }
}

/// The red, green and blue bytes a colour string spells out: after
/// trimming whitespace and leading `#`s its UTF-8 bytes must number six or
/// eight, and the first six must be hexadecimal digits.
pub open spec fn spec_color_from_hex(hex: Seq<char>) -> Option<(u8, u8, u8)> {
    let bytes = encode_utf8(without_hashes(trimmed(hex)));
    if bytes.len() != 6 && bytes.len() != 8 {
        None
    } else {
        match (hex_byte(bytes, 0), hex_byte(bytes, 2), hex_byte(bytes, 4)) {
            (Some(r), Some(g), Some(b)) => Some((r, g, b)),
            _ => None,
        }
    }
}

proof fn lemma_trimmed_range(s: Seq<char>, lo: int, hi: int)
    requires
        0 <= lo <= hi <= s.len(),
        forall|k: int| 0 <= k < lo ==> is_space(#[trigger] s[k]),
        forall|k: int| hi <= k < s.len() ==> is_space(#[trigger] s[k]),
        lo < hi ==> !is_space(s[lo]) && !is_space(s[hi - 1]),
    ensures
        trimmed(s) == s.subrange(lo, hi),
    decreases s.len(),
{
    if s.len() > 0 && is_space(s[0]) {
        if lo == 0 {
            assert(hi == 0);
            assert(is_space(s[0]));
            lemma_trimmed_range(s.drop_first(), 0, 0);
            assert(s.drop_first().subrange(0, 0) =~= s.subrange(0, 0));
        } else {
            lemma_trimmed_range(s.drop_first(), lo - 1, hi - 1);
            assert(s.drop_first().subrange(lo - 1, hi - 1) =~= s.subrange(lo, hi));
        }
    } else if s.len() > 0 && is_space(s.last()) {
        if hi == s.len() {
            assert(lo == hi);
            lemma_trimmed_range(s.drop_last(), 0, 0);
            assert(s.drop_last().subrange(0, 0) =~= s.subrange(lo, hi));
            assert(lo == 0 || is_space(s[0]) || lo == 0);
        } else {
            lemma_trimmed_range(s.drop_last(), lo, hi);
            assert(s.drop_last().subrange(lo, hi) =~= s.subrange(lo, hi));
        }
    } else {
        if s.len() > 0 {
            assert(lo == 0);
            assert(hi == s.len());
        }
        assert(s.subrange(lo, hi) =~= s);
    }
}

proof fn lemma_without_hashes_from(s: Seq<char>, lo: int)
    requires
        0 <= lo <= s.len(),
        forall|k: int| 0 <= k < lo ==> #[trigger] s[k] == '#',
        lo < s.len() ==> s[lo] != '#',
    ensures
        without_hashes(s) == s.subrange(lo, s.len() as int),
    decreases s.len(),
{
    if s.len() > 0 && s[0] == '#' {
        lemma_without_hashes_from(s.drop_first(), lo - 1);
        assert(s.drop_first().subrange(lo - 1, s.len() - 1) =~= s.subrange(lo, s.len() as int));
    } else {
        assert(s.subrange(lo, s.len() as int) =~= s);
    }
}

/// The colour a hex string such as `#cc785c` or `#7b61ff00` names, as red,
/// green and blue bytes; an alpha byte is ignored.
pub fn color_from_hex(hex: &str) -> (r: Option<(u8, u8, u8)>)
    ensures
        r == spec_color_from_hex(hex@),
{
    let cs = chars_of(hex);
    let n = cs.len();
    let mut lo: usize = 0;
    while lo < n && char_is_space(cs[lo])
        invariant
            0 <= lo <= n,
            n == cs@.len(),
            forall|k: int| 0 <= k < lo ==> is_space(#[trigger] cs@[k]),
        decreases n - lo,
    {
        lo = lo + 1;
    }
    let mut hi: usize = n;
    while hi > lo && char_is_space(cs[hi - 1])
        invariant
            lo <= hi <= n,
            n == cs@.len(),
            forall|k: int| hi <= k < n ==> is_space(#[trigger] cs@[k]),
        decreases hi,
    {
        hi = hi - 1;
    }
    proof {
        lemma_trimmed_range(cs@, lo as int, hi as int);
    }
    let mut start: usize = lo;
    while start < hi && cs[start] == '#'
        invariant
            lo <= start <= hi <= n,
            n == cs@.len(),
            forall|k: int| lo <= k < start ==> #[trigger] cs@[k] == '#',
        decreases hi - start,
    {
        start = start + 1;
    }
    proof {
        let t = cs@.subrange(lo as int, hi as int);
        assert forall|k: int| 0 <= k < start - lo implies #[trigger] t[k] == '#' by {
            assert(t[k] == cs@[lo + k]);
        }
        lemma_without_hashes_from(t, start - lo);
        assert(t.subrange(start - lo, t.len() as int) =~= cs@.subrange(start as int, hi as int));
    }
    let part = hex.substring_char(start, hi);
    let bytes = part.as_bytes();
    if bytes.len() != 6 && bytes.len() != 8 {
        return None;
    }
    let r = parse_hex_byte(bytes, 0)?;
    let g = parse_hex_byte(bytes, 2)?;
    let b = parse_hex_byte(bytes, 4)?;
    Some((r, g, b))
}


/// An ASCII letter or digit.
pub open spec fn is_ascii_alnum(c: char) -> bool {
    ('0' <= c && c <= '9') || ('a' <= c && c <= 'z') || ('A' <= c && c <= 'Z')
}

/// The lowercase form of an ASCII character.
pub open spec fn ascii_lower(c: char) -> char {
    if 'A' <= c && c <= 'Z' {
        ((c as u32) + 32) as char
    } else {
        c
    }
}

/// A provider name reduced to its lowercase ASCII letters and digits.
pub open spec fn normalized(s: Seq<char>) -> Seq<char> {
    s.filter(|c: char| is_ascii_alnum(c)).map_values(|c: char| ascii_lower(c))
}

fn lower_ascii(c: char) -> (r: char)
    ensures
        r == ascii_lower(c),
{
    if 'A' <= c && c <= 'Z' {
        let b = (c as u8) + 32;
        assert(b as char == ((c as u32) + 32) as char);
        b as char
    } else {
        c
    }
}

/// The provider name reduced to lowercase ASCII letters and digits, so
/// that `Z.ai` and `zai` or `Moonshot AI` and `moonshotai` agree.
pub fn normalized_provider(provider: &str) -> (r: Vec<char>)
    ensures
        r@ == normalized(provider@),
{
    let cs = chars_of(provider);
    let ghost pred = |c: char| is_ascii_alnum(c);
    let ghost low = |c: char| ascii_lower(c);
    let mut out: Vec<char> = Vec::new();
    let mut i: usize = 0;
    while i < cs.len()
        invariant
            0 <= i <= cs@.len(),
            cs@ == provider@,
            pred == (|c: char| is_ascii_alnum(c)),
            low == (|c: char| ascii_lower(c)),
            out@ == cs@.take(i as int).filter(pred).map_values(low),
        decreases cs@.len() - i,
    {
        let c = cs[i];
        proof {
            let pre = cs@.take(i as int);
            assert(cs@.take(i + 1) == pre.push(c));
            reveal_with_fuel(Seq::filter, 1);
            assert(pre.push(c).drop_last() == pre);
        }
        if ('0' <= c && c <= '9') || ('a' <= c && c <= 'z') || ('A' <= c && c <= 'Z') {
            out.push(lower_ascii(c));
            proof {
                let pre = cs@.take(i as int);
                assert(pre.push(c).filter(pred) == pre.filter(pred).push(c));
                assert(pre.push(c).filter(pred).map_values(low) =~= pre.filter(pred).map_values(low).push(ascii_lower(c)));
            }
        }
        i = i + 1;
    }
    assert(cs@.take(cs@.len() as int) == cs@);
    out
}

fn same_chars(a: &Vec<char>, word: &str) -> (r: bool)
    ensures
        r == (a@ == word@),
{
    let w = chars_of(word);
    if a.len() != w.len() {
        return false;
    }
    let mut i: usize = 0;
    while i < a.len()
        invariant
            0 <= i <= a@.len(),
            a@.len() == w@.len(),
            w@ == word@,
            forall|k: int| 0 <= k < i ==> a@[k] == w@[k],
        decreases a@.len() - i,
    {
        if a[i] != w[i] {
            return false;
        }
        i = i + 1;
    }
    assert(a@ =~= w@);
    true
}

/// The accent colour of a well-known provider, by its normalized name, as
/// red, green and blue bytes.
pub open spec fn spec_accent(n: Seq<char>) -> Option<(u8, u8, u8)> {
    if n == "openai"@ {
        Some((0x1f, 0x1f, 0x1f))
    } else if n == "anthropic"@ {
        Some((0xcc, 0x78, 0x5c))
    } else if n == "google"@ {
        Some((0x34, 0xa8, 0x53))
    } else if n == "meta"@ {
        Some((0x00, 0x89, 0xf4))
    } else if n == "deepseek"@ {
        Some((0x22, 0x43, 0xe6))
    } else if n == "mistral"@ {
        Some((0xfd, 0x6f, 0x00))
    } else if n == "xai"@ {
        Some((0x73, 0x6c, 0xd3))
    } else if n == "amazon"@ || n == "aws"@ || n == "amazonbedrock"@ {
        Some((0xff, 0x99, 0x00))
    } else if n == "microsoft"@ || n == "azure"@ || n == "microsoftazure"@ {
        Some((0x00, 0x78, 0xd5))
    } else if n == "minimax"@ {
        Some((0xeb, 0x35, 0x68))
    } else if n == "nvidia"@ {
        Some((0x86, 0xb7, 0x37))
    } else if n == "kimi"@ || n == "moonshot"@ || n == "moonshotai"@ {
        Some((0x04, 0x7a, 0xfe))
    } else if n == "alibaba"@ || n == "qwen"@ || n == "alibabacloud"@ {
        Some((0xff, 0x70, 0x18))
    } else if n == "zai"@ || n == "z"@ || n == "zhipu"@ || n == "zhipuai"@ {
        Some((0x1c, 0x7f, 0xf8))
    } else if n == "upstage"@ {
        Some((0x7c, 0x59, 0xf5))
    } else if n == "ibm"@ {
        Some((0x0f, 0x62, 0xfe))
    } else if n == "stepfun"@ {
        Some((0x01, 0x7a, 0xff))
    } else if n == "perplexity"@ {
        Some((0x1b, 0x81, 0x8e))
    } else if n == "cohere"@ {
        Some((0x39, 0x60, 0x99))
    } else if n == "xaiinc"@ {
        Some((0x73, 0x6c, 0xd3))
    } else if n == "xiaomi"@ || n == "mimo"@ {
        Some((0xff, 0x69, 0x00))
    } else {
        None
    }
}

/// The accent colour of a well-known provider, before it is lifted for a
/// dark background.
pub fn accent_rgb_for_provider(provider: &str) -> (r: Option<(u8, u8, u8)>)
    ensures
        r == spec_accent(normalized(provider@)),
{
    let n = normalized_provider(provider);
    if same_chars(&n, "openai") {
        Some((0x1f, 0x1f, 0x1f))
    } else if same_chars(&n, "anthropic") {
        Some((0xcc, 0x78, 0x5c))
    } else if same_chars(&n, "google") {
        Some((0x34, 0xa8, 0x53))
    } else if same_chars(&n, "meta") {
        Some((0x00, 0x89, 0xf4))
    } else if same_chars(&n, "deepseek") {
        Some((0x22, 0x43, 0xe6))
    } else if same_chars(&n, "mistral") {
        Some((0xfd, 0x6f, 0x00))
    } else if same_chars(&n, "xai") {
        Some((0x73, 0x6c, 0xd3))
    } else if same_chars(&n, "amazon") || same_chars(&n, "aws") || same_chars(&n, "amazonbedrock") {
        Some((0xff, 0x99, 0x00))
    } else if same_chars(&n, "microsoft") || same_chars(&n, "azure") || same_chars(&n, "microsoftazure") {
        Some((0x00, 0x78, 0xd5))
    } else if same_chars(&n, "minimax") {
        Some((0xeb, 0x35, 0x68))
    } else if same_chars(&n, "nvidia") {
        Some((0x86, 0xb7, 0x37))
    } else if same_chars(&n, "kimi") || same_chars(&n, "moonshot") || same_chars(&n, "moonshotai") {
        Some((0x04, 0x7a, 0xfe))
    } else if same_chars(&n, "alibaba") || same_chars(&n, "qwen") || same_chars(&n, "alibabacloud") {
        Some((0xff, 0x70, 0x18))
    } else if same_chars(&n, "zai") || same_chars(&n, "z") || same_chars(&n, "zhipu") || same_chars(&n, "zhipuai") {
        Some((0x1c, 0x7f, 0xf8))
    } else if same_chars(&n, "upstage") {
        Some((0x7c, 0x59, 0xf5))
    } else if same_chars(&n, "ibm") {
        Some((0x0f, 0x62, 0xfe))
    } else if same_chars(&n, "stepfun") {
        Some((0x01, 0x7a, 0xff))
    } else if same_chars(&n, "perplexity") {
        Some((0x1b, 0x81, 0x8e))
    } else if same_chars(&n, "cohere") {
        Some((0x39, 0x60, 0x99))
    } else if same_chars(&n, "xaiinc") {
        Some((0x73, 0x6c, 0xd3))
    } else if same_chars(&n, "xiaomi") || same_chars(&n, "mimo") {
        Some((0xff, 0x69, 0x00))
    } else {
        None
    }
}

/// The hash that spreads names over the palette: starting from
/// 1469598103934665603, each byte is xored in and the value multiplied by
/// the 64-bit FNV prime 1099511628211, wrapping.
pub open spec fn seed_hash(bytes: Seq<u8>) -> u64
    decreases bytes.len(),
{
    if bytes.len() == 0 {
        1469598103934665603u64
    } else {
        ((seed_hash(bytes.drop_last()) ^ (bytes.last() as u64)) as u64).wrapping_mul(1099511628211u64)
    }
}

/// How many colours the fallback palette holds.
pub const PALETTE_LEN: usize = 12;

/// The slot of the fallback palette a name is drawn in: the hash of its
/// UTF-8 bytes, as a machine word, modulo the palette size.
pub fn color_slot_for_seed(seed: &str) -> (slot: usize)
    ensures
        slot == ((seed_hash(encode_utf8(seed@)) as usize) % (PALETTE_LEN as usize)),
        slot < PALETTE_LEN,
{
    let bytes = seed.as_bytes();
    let mut h: u64 = 1469598103934665603;
    let mut i: usize = 0;
    while i < bytes.len()
        invariant
            0 <= i <= bytes@.len(),
            h == seed_hash(bytes@.take(i as int)),
        decreases bytes@.len() - i,
    {
        assert(bytes@.take(i + 1).drop_last() == bytes@.take(i as int));
        h = h ^ (bytes[i] as u64);
        h = h.wrapping_mul(1099511628211);
        i = i + 1;
    }
    assert(bytes@.take(bytes@.len() as int) == bytes@);
    (h as usize) % PALETTE_LEN
}

} // verus!
