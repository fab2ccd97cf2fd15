use vstd::prelude::*;

use crate::scaling::XpType;
use crate::state::{Experience, RepoState, State};
use vstd::bytes::{
    spec_u128_from_le_bytes, spec_u128_to_le_bytes, spec_u32_from_le_bytes, spec_u32_to_le_bytes,
    spec_u64_from_le_bytes, spec_u64_to_le_bytes, u128_from_le_bytes, u128_to_le_bytes,
    u32_from_le_bytes, u32_to_le_bytes, u64_from_le_bytes, u64_to_le_bytes,
};
use vstd::bytes::{
    lemma_auto_spec_u128_to_from_le_bytes, lemma_auto_spec_u32_to_from_le_bytes,
    lemma_auto_spec_u64_to_from_le_bytes,
};
use vstd::slice::slice_subrange;
use vstd::string::StrSliceExecFns;
use vstd::utf8::{char_is_scalar, char_u32_cast, is_scalar};

verus! {

/// The mathematical content of a ledger: what the encoded record
/// preserves, with each string taken as its character sequence.
pub struct LedgerImage {
    pub total: u128,
    pub precision: u128,
    pub output: u128,
    pub pedantry: u128,
    pub knowledge: u128,
    pub stat: XpType,
    pub entries: Seq<(Seq<char>, Seq<char>)>,
}

/// Checkpoint entries taken as pairs of character sequences.
pub open spec fn entries_image(rs: Seq<(String, RepoState)>) -> Seq<(Seq<char>, Seq<char>)> {
    rs.map_values(|p: (String, RepoState)| (p.0@, p.1.last_recorded_commit@))
}

/// The image of an in-memory ledger.
pub open spec fn image_of(s: State) -> LedgerImage {
    LedgerImage {
        total: s.experience.total,
        precision: s.experience.precision,
        output: s.experience.output,
        pedantry: s.experience.pedantry,
        knowledge: s.experience.knowledge,
        stat: s.current_stat,
        entries: entries_image(s.repos@),
    }
}

/// The single byte that stands for a stat in the encoded record.
pub open spec fn stat_tag(stat: XpType) -> u8 {
    match stat {
        XpType::Total => 0,
        XpType::Precision => 1,
        XpType::Output => 2,
        XpType::Pedantry => 3,
        XpType::Knowledge => 4,
    }
}

/// The stat a tag byte stands for, if any.
pub open spec fn spec_stat_from_tag(tag: u8) -> Option<XpType> {
    if tag == 0 {
        Some(XpType::Total)
    } else if tag == 1 {
        Some(XpType::Precision)
    } else if tag == 2 {
        Some(XpType::Output)
    } else if tag == 3 {
        Some(XpType::Pedantry)
    } else if tag == 4 {
        Some(XpType::Knowledge)
    } else {
        None
    }
}

/// Characters encoded one after the other, each as its Unicode scalar
/// value in four little-endian bytes.
pub open spec fn spec_encode_chars(s: Seq<char>) -> Seq<u8>
    decreases s.len(),
{
    if s.len() == 0 {
        Seq::empty()
    } else {
        spec_u32_to_le_bytes(s[0] as u32) + spec_encode_chars(s.drop_first())
    }
}

/// A string encoded as its character count in eight little-endian
/// bytes followed by its characters.
pub open spec fn spec_encode_string(s: Seq<char>) -> Seq<u8> {
    spec_u64_to_le_bytes(s.len() as u64) + spec_encode_chars(s)
}

/// A checkpoint entry encoded as its repository id followed by its
/// last recorded commit.
pub open spec fn spec_encode_entry(e: (Seq<char>, Seq<char>)) -> Seq<u8> {
    spec_encode_string(e.0) + spec_encode_string(e.1)
}

/// Checkpoint entries encoded one after the other.
pub open spec fn spec_encode_entries(es: Seq<(Seq<char>, Seq<char>)>) -> Seq<u8>
    decreases es.len(),
{
    if es.len() == 0 {
        Seq::empty()
    } else {
        spec_encode_entry(es[0]) + spec_encode_entries(es.drop_first())
    }
}

/// The encoded record: the five pools, the active-stat tag byte, the
/// entry count in eight little-endian bytes, and the entries.
pub open spec fn spec_encode_image(v: LedgerImage) -> Seq<u8> {
    spec_u128_to_le_bytes(v.total) + spec_u128_to_le_bytes(v.precision) + spec_u128_to_le_bytes(
        v.output,
    ) + spec_u128_to_le_bytes(v.pedantry) + spec_u128_to_le_bytes(v.knowledge) + seq![
        stat_tag(v.stat),
    ] + spec_u64_to_le_bytes(v.entries.len() as u64) + spec_encode_entries(v.entries)
}

/// Character encoding distributes over concatenation.
pub proof fn lemma_encode_chars_concat(s1: Seq<char>, s2: Seq<char>)
    ensures
        spec_encode_chars(s1 + s2) == spec_encode_chars(s1) + spec_encode_chars(s2),
    decreases s1.len(),
{
    if s1.len() == 0 {
        assert(s1 + s2 =~= s2);
        assert(spec_encode_chars(s1) + spec_encode_chars(s2) =~= spec_encode_chars(s2));
    } else {
        assert((s1 + s2).drop_first() =~= s1.drop_first() + s2);
        lemma_encode_chars_concat(s1.drop_first(), s2);
        assert(spec_encode_chars(s1 + s2) =~= spec_encode_chars(s1) + spec_encode_chars(s2));
    }
}

/// Entry encoding distributes over concatenation.
pub proof fn lemma_encode_entries_concat(e1: Seq<(Seq<char>, Seq<char>)>, e2: Seq<(Seq<char>, Seq<char>)>)
    ensures
        spec_encode_entries(e1 + e2) == spec_encode_entries(e1) + spec_encode_entries(e2),
    decreases e1.len(),
{
    if e1.len() == 0 {
        assert(e1 + e2 =~= e2);
        assert(spec_encode_entries(e1) + spec_encode_entries(e2) =~= spec_encode_entries(e2));
    } else {
        assert((e1 + e2).drop_first() =~= e1.drop_first() + e2);
        lemma_encode_entries_concat(e1.drop_first(), e2);
        assert(spec_encode_entries(e1 + e2) =~= spec_encode_entries(e1) + spec_encode_entries(e2));
    }
}

fn push_u128_le(out: &mut Vec<u8>, v: u128)
    ensures
        final(out)@ == old(out)@ + spec_u128_to_le_bytes(v),
{
    let mut b = u128_to_le_bytes(v);
    out.append(&mut b);
}

fn push_u64_le(out: &mut Vec<u8>, v: u64)
    ensures
        final(out)@ == old(out)@ + spec_u64_to_le_bytes(v),
{
    let mut b = u64_to_le_bytes(v);
    out.append(&mut b);
}

fn push_u32_le(out: &mut Vec<u8>, v: u32)
    ensures
        final(out)@ == old(out)@ + spec_u32_to_le_bytes(v),
{
    let mut b = u32_to_le_bytes(v);
    out.append(&mut b);
}

fn encode_chars_into(out: &mut Vec<u8>, s: &str)
    ensures
        final(out)@ == old(out)@ + spec_encode_chars(s@),
{
    let n: usize = s.unicode_len();
    let mut i: usize = 0;
    while i < n
        invariant
            n == s@.len(),
            i <= n,
            out@ == old(out)@ + spec_encode_chars(s@.take(i as int)),
        decreases n - i,
    {
        let c = s.get_char(i);
        push_u32_le(out, c as u32);
        proof {
            let prefix = s@.take(i as int);
            let one = seq![s@[i as int]];
            lemma_encode_chars_concat(prefix, one);
            assert(s@.take(i as int + 1) =~= prefix + one);
            assert(one.drop_first() =~= Seq::<char>::empty());
            assert(spec_encode_chars(Seq::<char>::empty()) == Seq::<u8>::empty());
            assert(spec_encode_chars(one) =~= spec_u32_to_le_bytes(s@[i as int] as u32));
            assert(out@ =~= old(out)@ + spec_encode_chars(s@.take(i as int + 1)));
        }
        i = i + 1;
    }
    proof {
        assert(s@.take(n as int) =~= s@);
    }
}

fn encode_string_into(out: &mut Vec<u8>, s: &str)
    ensures
        final(out)@ == old(out)@ + spec_encode_string(s@),
{
    let n: usize = s.unicode_len();
    push_u64_le(out, n as u64);
    encode_chars_into(out, s);
    proof {
        assert(final(out)@ =~= old(out)@ + spec_encode_string(s@));
    }
}

/// The ledger as one encoded byte record, ready to be written out
/// whole.
pub fn encode_state(s: &State) -> (r: Vec<u8>)
    ensures
        r@ == spec_encode_image(image_of(*s)),
{
    let ghost img = image_of(*s);
    let mut out: Vec<u8> = Vec::new();
    push_u128_le(&mut out, s.experience.total);
    push_u128_le(&mut out, s.experience.precision);
    push_u128_le(&mut out, s.experience.output);
    push_u128_le(&mut out, s.experience.pedantry);
    push_u128_le(&mut out, s.experience.knowledge);
    let tag: u8 = match s.current_stat {
        XpType::Total => 0,
        XpType::Precision => 1,
        XpType::Output => 2,
        XpType::Pedantry => 3,
        XpType::Knowledge => 4,
    };
    out.push(tag);
    let n: usize = s.repos.len();
    push_u64_le(&mut out, n as u64);
    let ghost header = out@;
    let mut i: usize = 0;
    while i < n
        invariant
            n == s.repos@.len(),
            i <= n,
            img == image_of(*s),
            img.entries.len() == n,
            forall|j: int|
                0 <= j < n ==> #[trigger] img.entries[j] == (
                    s.repos@[j].0@,
                    s.repos@[j].1.last_recorded_commit@,
                ),
            out@ == header + spec_encode_entries(img.entries.take(i as int)),
        decreases n - i,
    {
        encode_string_into(&mut out, s.repos[i].0.as_str());
        encode_string_into(&mut out, s.repos[i].1.last_recorded_commit.as_str());
        proof {
            let prefix = img.entries.take(i as int);
            let one = seq![img.entries[i as int]];
            lemma_encode_entries_concat(prefix, one);
            assert(img.entries.take(i as int + 1) =~= prefix + one);
            assert(one.drop_first() =~= Seq::<(Seq<char>, Seq<char>)>::empty());
            assert(spec_encode_entries(Seq::<(Seq<char>, Seq<char>)>::empty()) == Seq::<u8>::empty());
            assert(spec_encode_entries(one) =~= spec_encode_entry(img.entries[i as int]));
            assert(out@ =~= header + spec_encode_entries(img.entries.take(i as int + 1)));
        }
        i = i + 1;
    }
    proof {
        assert(img.entries.take(n as int) =~= img.entries);
        assert(out@ =~= spec_encode_image(img));
    }
    out
}

/// Sixteen bytes read as a 128-bit value, little-endian.
pub open spec fn spec_parse_u128_at(bytes: Seq<u8>, off: int) -> Option<(u128, int)> {
    if 0 <= off && off + 16 <= bytes.len() {
        Some((spec_u128_from_le_bytes(bytes.subrange(off, off + 16)), off + 16))
    } else {
        None
    }
}

/// Eight bytes read as a 64-bit value, little-endian.
pub open spec fn spec_parse_u64_at(bytes: Seq<u8>, off: int) -> Option<(u64, int)> {
    if 0 <= off && off + 8 <= bytes.len() {
        Some((spec_u64_from_le_bytes(bytes.subrange(off, off + 8)), off + 8))
    } else {
        None
    }
}

/// Four bytes read as a 32-bit value, little-endian.
pub open spec fn spec_parse_u32_at(bytes: Seq<u8>, off: int) -> Option<(u32, int)> {
    if 0 <= off && off + 4 <= bytes.len() {
        Some((spec_u32_from_le_bytes(bytes.subrange(off, off + 4)), off + 4))
    } else {
        None
    }
}

/// One byte read as-is.
pub open spec fn spec_parse_u8_at(bytes: Seq<u8>, off: int) -> Option<(u8, int)> {
    if 0 <= off && off + 1 <= bytes.len() {
        Some((bytes[off], off + 1))
    } else {
        None
    }
}

/// `count` characters read one after the other, each as a 32-bit
/// Unicode scalar value; a value that is no scalar fails the parse.
pub open spec fn spec_parse_chars_at(bytes: Seq<u8>, off: int, count: int) -> Option<
    (Seq<char>, int),
>
    decreases count,
{
    if count <= 0 {
        Some((Seq::empty(), off))
    } else {
        match spec_parse_u32_at(bytes, off) {
            None => None,
            Some((v, off1)) => {
                if is_scalar(v) {
                    match spec_parse_chars_at(bytes, off1, count - 1) {
                        None => None,
                        Some((rest, off2)) => Some((seq![v as char] + rest, off2)),
                    }
                } else {
                    None
                }
            },
        }
    }
}

/// A string read as its character count followed by its characters.
pub open spec fn spec_parse_string_at(bytes: Seq<u8>, off: int) -> Option<(Seq<char>, int)> {
    match spec_parse_u64_at(bytes, off) {
        None => None,
        Some((n, off1)) => spec_parse_chars_at(bytes, off1, n as int),
    }
}

/// `count` checkpoint entries read one after the other.
pub open spec fn spec_parse_entries_at(bytes: Seq<u8>, off: int, count: int) -> Option<
    (Seq<(Seq<char>, Seq<char>)>, int),
>
    decreases count,
{
    if count <= 0 {
        Some((Seq::empty(), off))
    } else {
        match spec_parse_string_at(bytes, off) {
            None => None,
            Some((k, off1)) => match spec_parse_string_at(bytes, off1) {
                None => None,
                Some((v, off2)) => match spec_parse_entries_at(bytes, off2, count - 1) {
                    None => None,
                    Some((rest, off3)) => Some((seq![(k, v)] + rest, off3)),
                },
            },
        }
    }
}

/// No two entries carry the same repository id.
pub open spec fn image_keys_unique(entries: Seq<(Seq<char>, Seq<char>)>) -> bool {
    forall|i: int, j: int|
        0 <= i < j < entries.len() ==> (#[trigger] entries[i]).0 != (#[trigger] entries[j]).0
}

/// The whole record parsed back into a ledger image: the five pools,
/// a valid stat tag, the entry count and the entries; trailing bytes,
/// an unknown tag or a repeated repository id fail the parse.
pub open spec fn spec_parse_image(bytes: Seq<u8>) -> Option<LedgerImage> {
    match spec_parse_u128_at(bytes, 0) {
        None => None,
        Some((total, o1)) => match spec_parse_u128_at(bytes, o1) {
            None => None,
            Some((precision, o2)) => match spec_parse_u128_at(bytes, o2) {
                None => None,
                Some((output, o3)) => match spec_parse_u128_at(bytes, o3) {
                    None => None,
                    Some((pedantry, o4)) => match spec_parse_u128_at(bytes, o4) {
                        None => None,
                        Some((knowledge, o5)) => match spec_parse_u8_at(bytes, o5) {
                            None => None,
                            Some((tag, o6)) => match spec_stat_from_tag(tag) {
                                None => None,
                                Some(stat) => match spec_parse_u64_at(bytes, o6) {
                                    None => None,
                                    Some((count, o7)) => match spec_parse_entries_at(
                                        bytes,
                                        o7,
                                        count as int,
                                    ) {
                                        None => None,
                                        Some((entries, o8)) => {
                                            if o8 == bytes.len() && image_keys_unique(entries) {
                                                Some(
                                                    LedgerImage {
                                                        total,
                                                        precision,
                                                        output,
                                                        pedantry,
                                                        knowledge,
                                                        stat,
                                                        entries,
                                                    },
                                                )
                                            } else {
                                                None
                                            }
                                        },
                                    },
                                },
                            },
                        },
                    },
                },
            },
        },
    }
}

/// Relies on char::from_u32: `Some` exactly for Unicode scalar values
/// (everything through 0x10FFFF except the surrogate range), returning
/// the character with that scalar value.
#[verifier::external_body]
fn char_from_u32(v: u32) -> (r: Option<char>)
    ensures
        r is Some <==> is_scalar(v),
        match r {
            Some(c) => c == (v as char),
            None => !is_scalar(v),
        },
{
    char::from_u32(v)
}

/// Relies on String::push: appends one character at the end.
#[verifier::external_body]
fn string_push(s: &mut String, c: char)
    ensures
        final(s)@ == old(s)@.push(c),
{
    s.push(c);
}

fn read_u128_at(bytes: &Vec<u8>, off: usize) -> (r: Option<(u128, usize)>)
    ensures
        match r {
            Some(p) => spec_parse_u128_at(bytes@, off as int) == Some((p.0, p.1 as int)),
            None => spec_parse_u128_at(bytes@, off as int) is None,
        },
{
    if bytes.len() >= 16 && off <= bytes.len() - 16 {
        let s = slice_subrange(bytes.as_slice(), off, off + 16);
        Some((u128_from_le_bytes(s), off + 16))
    } else {
        None
    }
}

fn read_u64_at(bytes: &Vec<u8>, off: usize) -> (r: Option<(u64, usize)>)
    ensures
        match r {
            Some(p) => spec_parse_u64_at(bytes@, off as int) == Some((p.0, p.1 as int)),
            None => spec_parse_u64_at(bytes@, off as int) is None,
        },
{
    if bytes.len() >= 8 && off <= bytes.len() - 8 {
        let s = slice_subrange(bytes.as_slice(), off, off + 8);
        Some((u64_from_le_bytes(s), off + 8))
    } else {
        None
    }
}

fn read_u32_at(bytes: &Vec<u8>, off: usize) -> (r: Option<(u32, usize)>)
    ensures
        match r {
            Some(p) => spec_parse_u32_at(bytes@, off as int) == Some((p.0, p.1 as int)),
            None => spec_parse_u32_at(bytes@, off as int) is None,
        },
{
    if bytes.len() >= 4 && off <= bytes.len() - 4 {
        let s = slice_subrange(bytes.as_slice(), off, off + 4);
        Some((u32_from_le_bytes(s), off + 4))
    } else {
        None
    }
}

fn read_u8_at(bytes: &Vec<u8>, off: usize) -> (r: Option<(u8, usize)>)
    ensures
        match r {
            Some(p) => spec_parse_u8_at(bytes@, off as int) == Some((p.0, p.1 as int)),
            None => spec_parse_u8_at(bytes@, off as int) is None,
        },
{
    if off < bytes.len() {
        Some((bytes[off], off + 1))
    } else {
        None
    }
}

fn read_string_at(bytes: &Vec<u8>, off: usize) -> (r: Option<(String, usize)>)
    ensures
        match r {
            Some(p) => spec_parse_string_at(bytes@, off as int) == Some((p.0@, p.1 as int)),
            None => spec_parse_string_at(bytes@, off as int) is None,
        },
{
    let (n, start) = match read_u64_at(bytes, off) {
        None => {
            return None;
        },
        Some(p) => p,
    };
    let mut s = String::new();
    let mut cur: usize = start;
    let mut remaining: u64 = n;
    loop
        invariant_except_break
            0 <= cur <= usize::MAX,
            spec_parse_u64_at(bytes@, off as int) == Some((n, start as int)),
            spec_parse_chars_at(bytes@, start as int, n as int) == (match spec_parse_chars_at(
                bytes@,
                cur as int,
                remaining as int,
            ) {
                None => None::<(Seq<char>, int)>,
                Some((rest, end)) => Some((s@ + rest, end)),
            }),
        ensures
            remaining == 0,
            spec_parse_chars_at(bytes@, start as int, n as int) == Some((s@, cur as int)),
        decreases remaining,
    {
        if remaining == 0 {
            proof {
                assert(s@ + Seq::<char>::empty() =~= s@);
            }
            break ;
        }
        let (v, next) = match read_u32_at(bytes, cur) {
            None => {
                return None;
            },
            Some(p) => p,
        };
        let c = match char_from_u32(v) {
            None => {
                return None;
            },
            Some(c) => c,
        };
        let ghost prev_s = s@;
        string_push(&mut s, c);
        proof {
            assert(s@ =~= prev_s + seq![c]);
            let tail = spec_parse_chars_at(bytes@, next as int, remaining as int - 1);
            if tail is Some {
                let rest2 = (tail->0).0;
                assert(prev_s + (seq![c] + rest2) =~= s@ + rest2);
            }
        }
        cur = next;
        remaining = remaining - 1;
    }
    Some((s, cur))
}

/// A ledger decoded back from one encoded byte record, or `None` where
/// the bytes are no encoding of any ledger (truncated or trailing
/// bytes, an unknown stat tag, a character value that is no Unicode
/// scalar, or a repeated repository id).
pub fn decode_state(bytes: &Vec<u8>) -> (r: Option<State>)
    ensures
        r is Some <==> spec_parse_image(bytes@) is Some,
        match r {
            Some(st) => st.wf() && image_of(st) == spec_parse_image(bytes@)->0,
            None => true,
        },
{
    let (total, off1) = match read_u128_at(bytes, 0) {
        None => {
            return None;
        },
        Some(p) => p,
    };
    let (precision, off2) = match read_u128_at(bytes, off1) {
        None => {
            return None;
        },
        Some(p) => p,
    };
    let (output, off3) = match read_u128_at(bytes, off2) {
        None => {
            return None;
        },
        Some(p) => p,
    };
    let (pedantry, off4) = match read_u128_at(bytes, off3) {
        None => {
            return None;
        },
        Some(p) => p,
    };
    let (knowledge, off5) = match read_u128_at(bytes, off4) {
        None => {
            return None;
        },
        Some(p) => p,
    };
    let (tag, off6) = match read_u8_at(bytes, off5) {
        None => {
            return None;
        },
        Some(p) => p,
    };
    let current_stat: XpType = if tag == 0 {
        XpType::Total
    } else if tag == 1 {
        XpType::Precision
    } else if tag == 2 {
        XpType::Output
    } else if tag == 3 {
        XpType::Pedantry
    } else if tag == 4 {
        XpType::Knowledge
    } else {
        return None;
    };
    let (count, off7) = match read_u64_at(bytes, off6) {
        None => {
            return None;
        },
        Some(p) => p,
    };
    let mut repos: Vec<(String, RepoState)> = Vec::new();
    let mut cur: usize = off7;
    let mut remaining: u64 = count;
    loop
        invariant_except_break
            spec_parse_u128_at(bytes@, 0) == Some((total, off1 as int)),
            spec_parse_u128_at(bytes@, off1 as int) == Some((precision, off2 as int)),
            spec_parse_u128_at(bytes@, off2 as int) == Some((output, off3 as int)),
            spec_parse_u128_at(bytes@, off3 as int) == Some((pedantry, off4 as int)),
            spec_parse_u128_at(bytes@, off4 as int) == Some((knowledge, off5 as int)),
            spec_parse_u8_at(bytes@, off5 as int) == Some((tag, off6 as int)),
            spec_stat_from_tag(tag) == Some(current_stat),
            spec_parse_u64_at(bytes@, off6 as int) == Some((count, off7 as int)),
            spec_parse_entries_at(bytes@, off7 as int, count as int) == (
            match spec_parse_entries_at(bytes@, cur as int, remaining as int) {
                None => None::<(Seq<(Seq<char>, Seq<char>)>, int)>,
                Some((rest, end)) => Some((entries_image(repos@) + rest, end)),
            }),
        ensures
            spec_parse_u128_at(bytes@, 0) == Some((total, off1 as int)),
            spec_parse_u128_at(bytes@, off1 as int) == Some((precision, off2 as int)),
            spec_parse_u128_at(bytes@, off2 as int) == Some((output, off3 as int)),
            spec_parse_u128_at(bytes@, off3 as int) == Some((pedantry, off4 as int)),
            spec_parse_u128_at(bytes@, off4 as int) == Some((knowledge, off5 as int)),
            spec_parse_u8_at(bytes@, off5 as int) == Some((tag, off6 as int)),
            spec_stat_from_tag(tag) == Some(current_stat),
            spec_parse_u64_at(bytes@, off6 as int) == Some((count, off7 as int)),
            spec_parse_entries_at(bytes@, off7 as int, count as int) == Some(
                (entries_image(repos@), cur as int),
            ),
        decreases remaining,
    {
        if remaining == 0 {
            proof {
                assert(entries_image(repos@) + Seq::<(Seq<char>, Seq<char>)>::empty()
                    =~= entries_image(repos@));
            }
            break ;
        }
        let (k, mid) = match read_string_at(bytes, cur) {
            None => {
                return None;
            },
            Some(p) => p,
        };
        let (v, next) = match read_string_at(bytes, mid) {
            None => {
                return None;
            },
            Some(p) => p,
        };
        let ghost prev = repos@;
        repos.push((k, RepoState { last_recorded_commit: v }));
        proof {
            assert(entries_image(repos@) =~= entries_image(prev).push((k@, v@)));
            let tail = spec_parse_entries_at(bytes@, next as int, remaining as int - 1);
            if tail is Some {
                let rest2 = (tail->0).0;
                assert(entries_image(prev) + (seq![(k@, v@)] + rest2) =~= entries_image(repos@)
                    + rest2);
            }
        }
        cur = next;
        remaining = remaining - 1;
    }
    if cur != bytes.len() {
        return None;
    }
    let st = State {
        experience: Experience { total, precision, output, pedantry, knowledge },
        current_stat,
        repos,
    };
    if !st.is_well_formed() {
        proof {
            let img = entries_image(st.repos@);
            assert(!image_keys_unique(img)) by {
                let (p, q) = choose|p: int, q: int|
                    0 <= p < q < st.repos@.len() && (#[trigger] st.repos@[p]).0@ == (
                    #[trigger] st.repos@[q]).0@;
                assert(img[p].0 == img[q].0);
            }
        }
        return None;
    }
    proof {
        let img = entries_image(st.repos@);
        assert forall|p: int, q: int| 0 <= p < q < img.len() implies (#[trigger] img[p]).0 != (
        #[trigger] img[q]).0 by {
            assert(st.repos@[p].0@ != st.repos@[q].0@);
        }
    }
    Some(st)
}

/// A character sequence encodes to four bytes per character.
pub proof fn lemma_encode_chars_len(s: Seq<char>)
    ensures
        spec_encode_chars(s).len() == 4 * s.len(),
    decreases s.len(),
{
    lemma_auto_spec_u32_to_from_le_bytes();
    if s.len() > 0 {
        lemma_encode_chars_len(s.drop_first());
    }
}

/// A slice of an already-identified slice of the byte record.
proof fn lemma_subrange_of_subrange(bytes: Seq<u8>, off: int, e: Seq<u8>, a: int, b: int)
    requires
        0 <= off,
        off + e.len() <= bytes.len(),
        bytes.subrange(off, off + e.len()) == e,
        0 <= a <= b <= e.len(),
    ensures
        bytes.subrange(off + a, off + b) == e.subrange(a, b),
{
    assert forall|i: int| 0 <= i < b - a implies bytes.subrange(off + a, off + b)[i]
        == e.subrange(a, b)[i] by {
        assert(bytes.subrange(off, off + e.len())[a + i] == e[a + i]);
    }
    assert(bytes.subrange(off + a, off + b) =~= e.subrange(a, b));
}

proof fn lemma_parse_chars_at_enc(bytes: Seq<u8>, off: int, s: Seq<char>)
    requires
        0 <= off,
        off + spec_encode_chars(s).len() <= bytes.len(),
        bytes.subrange(off, off + spec_encode_chars(s).len()) == spec_encode_chars(s),
    ensures
        spec_parse_chars_at(bytes, off, s.len() as int) == Some(
            (s, off + spec_encode_chars(s).len()),
        ),
    decreases s.len(),
{
    lemma_auto_spec_u32_to_from_le_bytes();
    if s.len() == 0 {
        assert(s =~= Seq::<char>::empty());
    } else {
        let e = spec_encode_chars(s);
        let head = spec_u32_to_le_bytes(s[0] as u32);
        let rest_e = spec_encode_chars(s.drop_first());
        lemma_encode_chars_len(s);
        lemma_encode_chars_len(s.drop_first());
        lemma_subrange_of_subrange(bytes, off, e, 0, 4);
        assert(e.subrange(0, 4) =~= head);
        assert(spec_parse_u32_at(bytes, off) == Some((s[0] as u32, off + 4)));
        char_is_scalar(s[0]);
        char_u32_cast(s[0], s[0] as u32);
        lemma_subrange_of_subrange(bytes, off, e, 4, e.len() as int);
        assert(e.subrange(4, e.len() as int) =~= rest_e);
        lemma_parse_chars_at_enc(bytes, off + 4, s.drop_first());
        assert(seq![s[0]] + s.drop_first() =~= s);
    }
}

proof fn lemma_parse_string_at_enc(bytes: Seq<u8>, off: int, s: Seq<char>)
    requires
        0 <= off,
        off + spec_encode_string(s).len() <= bytes.len(),
        bytes.subrange(off, off + spec_encode_string(s).len()) == spec_encode_string(s),
        s.len() < 0x10000000000000000,
    ensures
        spec_parse_string_at(bytes, off) == Some((s, off + spec_encode_string(s).len())),
{
    lemma_auto_spec_u64_to_from_le_bytes();
    lemma_encode_chars_len(s);
    let e = spec_encode_string(s);
    let lenb = spec_u64_to_le_bytes(s.len() as u64);
    let chars = spec_encode_chars(s);
    lemma_subrange_of_subrange(bytes, off, e, 0, 8);
    assert(e.subrange(0, 8) =~= lenb);
    assert(spec_parse_u64_at(bytes, off) == Some((s.len() as u64, off + 8)));
    lemma_subrange_of_subrange(bytes, off, e, 8, e.len() as int);
    assert(e.subrange(8, e.len() as int) =~= chars);
    lemma_parse_chars_at_enc(bytes, off + 8, s);
}

proof fn lemma_parse_entries_at_enc(bytes: Seq<u8>, off: int, es: Seq<(Seq<char>, Seq<char>)>)
    requires
        0 <= off,
        off + spec_encode_entries(es).len() <= bytes.len(),
        bytes.subrange(off, off + spec_encode_entries(es).len()) == spec_encode_entries(es),
        forall|i: int|
            0 <= i < es.len() ==> (#[trigger] es[i]).0.len() < 0x10000000000000000
                && es[i].1.len() < 0x10000000000000000,
    ensures
        spec_parse_entries_at(bytes, off, es.len() as int) == Some(
            (es, off + spec_encode_entries(es).len()),
        ),
    decreases es.len(),
{
    if es.len() == 0 {
        assert(es =~= Seq::<(Seq<char>, Seq<char>)>::empty());
    } else {
        let e0 = es[0];
        let k_enc = spec_encode_string(e0.0);
        let v_enc = spec_encode_string(e0.1);
        let rest_enc = spec_encode_entries(es.drop_first());
        let e = spec_encode_entries(es);
        assert(e =~= (k_enc + v_enc) + rest_enc);
        lemma_subrange_of_subrange(bytes, off, e, 0, k_enc.len() as int);
        assert(e.subrange(0, k_enc.len() as int) =~= k_enc);
        lemma_parse_string_at_enc(bytes, off, e0.0);
        let off1 = off + k_enc.len();
        lemma_subrange_of_subrange(bytes, off, e, k_enc.len() as int, (k_enc.len() + v_enc.len()) as int);
        assert(e.subrange(k_enc.len() as int, (k_enc.len() + v_enc.len()) as int) =~= v_enc);
        lemma_parse_string_at_enc(bytes, off1, e0.1);
        let off2 = off1 + v_enc.len();
        lemma_subrange_of_subrange(bytes, off, e, (k_enc.len() + v_enc.len()) as int, e.len() as int);
        assert(e.subrange((k_enc.len() + v_enc.len()) as int, e.len() as int) =~= rest_enc);
        lemma_parse_entries_at_enc(bytes, off2, es.drop_first());
        assert((e0.0, e0.1) == e0);
        assert(seq![e0] + es.drop_first() =~= es);
    }
}

/// A ledger image the codec is meant for: repository ids are pairwise
/// distinct and every count fits the encoded record's width.
pub open spec fn image_wf(v: LedgerImage) -> bool {
    &&& image_keys_unique(v.entries)
    &&& v.entries.len() < 0x10000000000000000
    &&& forall|i: int|
        0 <= i < v.entries.len() ==> (#[trigger] v.entries[i]).0.len() < 0x10000000000000000
            && v.entries[i].1.len() < 0x10000000000000000
}

/// Law: encoding a ledger and then decoding the bytes yields a ledger
/// equal in every field — the pools, the active stat and the whole
/// checkpoint map — for every well-formed ledger, whatever its stat
/// values and however many (or few) repositories it holds.
pub proof fn lemma_codec_round_trip(v: LedgerImage)
    requires
        image_wf(v),
    ensures
        spec_parse_image(spec_encode_image(v)) == Some(v),
{
    lemma_auto_spec_u128_to_from_le_bytes();
    lemma_auto_spec_u64_to_from_le_bytes();
    let bytes = spec_encode_image(v);
    let a1 = spec_u128_to_le_bytes(v.total);
    let a2 = spec_u128_to_le_bytes(v.precision);
    let a3 = spec_u128_to_le_bytes(v.output);
    let a4 = spec_u128_to_le_bytes(v.pedantry);
    let a5 = spec_u128_to_le_bytes(v.knowledge);
    let t = seq![stat_tag(v.stat)];
    let c = spec_u64_to_le_bytes(v.entries.len() as u64);
    let e = spec_encode_entries(v.entries);
    assert(bytes =~= a1 + a2 + a3 + a4 + a5 + t + c + e);
    assert(bytes.subrange(0, 16) =~= a1);
    assert(bytes.subrange(16, 32) =~= a2);
    assert(bytes.subrange(32, 48) =~= a3);
    assert(bytes.subrange(48, 64) =~= a4);
    assert(bytes.subrange(64, 80) =~= a5);
    assert(bytes[80] == stat_tag(v.stat));
    assert(bytes.subrange(81, 89) =~= c);
    assert(bytes.subrange(89, 89 + e.len() as int) =~= e);
    assert(spec_parse_u128_at(bytes, 0) == Some((v.total, 16int)));
    assert(spec_parse_u128_at(bytes, 16) == Some((v.precision, 32int)));
    assert(spec_parse_u128_at(bytes, 32) == Some((v.output, 48int)));
    assert(spec_parse_u128_at(bytes, 48) == Some((v.pedantry, 64int)));
    assert(spec_parse_u128_at(bytes, 64) == Some((v.knowledge, 80int)));
    assert(spec_parse_u8_at(bytes, 80) == Some((stat_tag(v.stat), 81int)));
    assert(spec_stat_from_tag(stat_tag(v.stat)) == Some(v.stat));
    assert(spec_parse_u64_at(bytes, 81) == Some((v.entries.len() as u64, 89int)));
    lemma_parse_entries_at_enc(bytes, 89, v.entries);
    assert(89 + e.len() == bytes.len());
}

/// Law, at the level of the in-memory ledger: the bytes that
/// `encode_state` writes decode, through `decode_state`'s
/// specification, back to the very image of the ledger.
pub proof fn lemma_state_round_trip(s: State)
    requires
        s.wf(),
        s.repos@.len() < 0x10000000000000000,
        forall|i: int|
            0 <= i < s.repos@.len() ==> (#[trigger] s.repos@[i]).0@.len() < 0x10000000000000000
                && s.repos@[i].1.last_recorded_commit@.len() < 0x10000000000000000,
    ensures
        spec_parse_image(spec_encode_image(image_of(s))) == Some(image_of(s)),
{
    let v = image_of(s);
    assert forall|i: int, j: int| 0 <= i < j < v.entries.len() implies (
    #[trigger] v.entries[i]).0 != (#[trigger] v.entries[j]).0 by {
        assert(s.repos@[i].0@ != s.repos@[j].0@);
    }
    lemma_codec_round_trip(v);
}

} // verus!
