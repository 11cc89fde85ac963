use vstd::prelude::*;
use vstd::string::StringExecFns;

use crate::text::text_of;
use crate::value::{be_u32_bytes, text_views, Data, DataView};

verus! {

/// The lowercase hexadecimal digit of `d`, for `d` below 16.
pub open spec fn hex_char(d: int) -> char {
    seq!['0', '1', '2', '3', '4', '5', '6', '7', '8', '9', 'a', 'b', 'c', 'd', 'e', 'f'][d]
}

/// A byte as two hexadecimal digits.
pub open spec fn byte_hex(b: u8) -> Seq<char> {
    seq![hex_char((b / 16) as int), hex_char((b % 16) as int)]
}

/// Bytes as hexadecimal digits, two per byte, in order.
pub open spec fn bytes_hex(bs: Seq<u8>) -> Seq<char>
    decreases bs.len(),
{
    if bs.len() == 0 {
        Seq::empty()
    } else {
        bytes_hex(bs.drop_last()) + byte_hex(bs.last())
    }
}

/// Bytes as hexadecimal digit pairs separated by single spaces.
pub open spec fn spaced_hex(bs: Seq<u8>) -> Seq<char>
    decreases bs.len(),
{
    if bs.len() == 0 {
        Seq::empty()
    } else if bs.len() == 1 {
        byte_hex(bs[0])
    } else {
        spaced_hex(bs.drop_last()) + seq![' '] + byte_hex(bs.last())
    }
}

/// What std's `Debug` writes for a string: the text quoted, with escapes.
pub uninterp spec fn debug_quoted(s: Seq<char>) -> Seq<char>;

/// The entries of a multi-string, each quoted, separated by `", "`.
pub open spec fn debug_entries(l: Seq<Seq<u16>>) -> Seq<char>
    decreases l.len(),
{
    if l.len() == 0 {
        Seq::empty()
    } else if l.len() == 1 {
        debug_quoted(text_of(l[0]))
    } else {
        debug_entries(l.drop_last()) + seq![',', ' '] + debug_quoted(text_of(l.last()))
    }
}

/// How a value is shown: strings as their text, binary data as spaced hex
/// bytes in angle brackets, numbers as zero-padded hex (16 digits for a
/// 32-bit number, 32 for a 64-bit one), multi-strings as a quoted list, and
/// the payload-free types by name in angle brackets.
pub open spec fn display_of(d: DataView) -> Seq<char> {
    match d {
        DataView::Untyped => "<None>"@,
        DataView::String(s) => text_of(s),
        DataView::ExpandString(s) => text_of(s),
        DataView::Binary(b) => seq!['<'] + spaced_hex(b) + seq!['>'],
        DataView::U32(x) => "0x00000000"@ + bytes_hex(be_u32_bytes(x)),
        DataView::U32BE(x) => "0x00000000"@ + bytes_hex(be_u32_bytes(x)),
        DataView::Link => "<Link>"@,
        DataView::MultiString(l) => seq!['['] + debug_entries(l) + seq![']'],
        DataView::ResourceList => "<Resource List>"@,
        DataView::FullResourceDescriptor => "<Full Resource Descriptor>"@,
        DataView::ResourceRequirementsList => "<Resource Requirements List>"@,
        DataView::U64(x) => "0x0000000000000000"@ + bytes_hex(
            be_u32_bytes((x / 0x1_0000_0000) as u32) + be_u32_bytes((x % 0x1_0000_0000) as u32),
        ),
    }
}

/// Relies on std's `Debug` impl for `str`.
#[verifier::external_body]
fn debug_str(s: &str) -> (r: String)
    ensures
        r@ == debug_quoted(s@),
{
    format!("{:?}", s)
}

fn hex_digit_str(d: u8) -> (r: &'static str)
    requires
        d < 16,
    ensures
        r@ == seq![hex_char(d as int)],
{
    proof {
        reveal_strlit("0");
        reveal_strlit("1");
        reveal_strlit("2");
        reveal_strlit("3");
        reveal_strlit("4");
        reveal_strlit("5");
        reveal_strlit("6");
        reveal_strlit("7");
        reveal_strlit("8");
        reveal_strlit("9");
        reveal_strlit("a");
        reveal_strlit("b");
        reveal_strlit("c");
        reveal_strlit("d");
        reveal_strlit("e");
        reveal_strlit("f");
    }
    match d {
        0 => "0",
        1 => "1",
        2 => "2",
        3 => "3",
        4 => "4",
        5 => "5",
        6 => "6",
        7 => "7",
        8 => "8",
        9 => "9",
        10 => "a",
        11 => "b",
        12 => "c",
        13 => "d",
        14 => "e",
        _ => "f",
    }
}

fn push_byte_hex(out: &mut String, b: u8)
    ensures
        final(out)@ == old(out)@ + byte_hex(b),
{
    out.append(hex_digit_str(b / 16));
    out.append(hex_digit_str(b % 16));
    assert(final(out)@ =~= old(out)@ + byte_hex(b));
}

fn push_bytes_hex(out: &mut String, bs: &Vec<u8>)
    ensures
        final(out)@ == old(out)@ + bytes_hex(bs@),
{
    let mut i: usize = 0;
    while i < bs.len()
        invariant
            i <= bs@.len(),
            out@ == old(out)@ + bytes_hex(bs@.take(i as int)),
        decreases bs@.len() - i,
    {
        push_byte_hex(out, bs[i]);
        proof {
            let t = bs@.take(i + 1);
            assert(t.drop_last() =~= bs@.take(i as int));
        }
        i = i + 1;
        assert(out@ =~= old(out)@ + bytes_hex(bs@.take(i as int)));
    }
    assert(bs@.take(i as int) =~= bs@);
}

fn push_spaced_hex(out: &mut String, bs: &Vec<u8>)
    ensures
        final(out)@ == old(out)@ + spaced_hex(bs@),
{
    let mut i: usize = 0;
    while i < bs.len()
        invariant
            i <= bs@.len(),
            out@ == old(out)@ + spaced_hex(bs@.take(i as int)),
        decreases bs@.len() - i,
    {
        if i > 0 {
            out.append(" ");
            proof {
                reveal_strlit(" ");
            }
        }
        push_byte_hex(out, bs[i]);
        proof {
            let t = bs@.take(i + 1);
            assert(t.drop_last() =~= bs@.take(i as int));
            if i == 0 {
                assert(t[0] == bs@[0]);
            }
        }
        i = i + 1;
        assert(out@ =~= old(out)@ + spaced_hex(bs@.take(i as int)));
    }
    assert(bs@.take(i as int) =~= bs@);
}

fn be_u32_vec(x: u32) -> (r: Vec<u8>)
    ensures
        r@ == be_u32_bytes(x),
{
    let r = vec![(x / 0x1000000) as u8, (x / 0x10000 % 0x100) as u8, (x / 0x100 % 0x100) as u8, (x % 0x100) as u8];
    assert(r@ =~= be_u32_bytes(x));
    r
}

impl Data {
    /// The value as it is shown to a reader.
    #[verifier::rlimit(30)]
    pub fn to_string(&self) -> (r: String)
        ensures
            r@ == display_of(self@),
    {
        match self {
            Data::Untyped => String::from_str("<None>"),
            Data::String(s) => s.to_string(),
            Data::ExpandString(s) => s.to_string(),
            Data::Binary(b) => {
                let mut out = String::from_str("<");
                push_spaced_hex(&mut out, b);
                out.append(">");
                proof {
                    reveal_strlit("<");
                    reveal_strlit(">");
                }
                out
            },
            Data::U32(x) => {
                let mut out = String::from_str("0x00000000");
                push_bytes_hex(&mut out, &be_u32_vec(*x));
                out
            },
            Data::U32BE(x) => {
                let mut out = String::from_str("0x00000000");
                push_bytes_hex(&mut out, &be_u32_vec(*x));
                out
            },
            Data::Link => String::from_str("<Link>"),
            Data::MultiString(l) => {
                let ghost v = text_views(l@);
                let mut out = String::from_str("[");
                proof {
                    reveal_strlit("[");
                    reveal_strlit(", ");
                    reveal_strlit("]");
                }
                let mut i: usize = 0;
                while i < l.len()
                    invariant
                        i <= l@.len(),
                        v == text_views(l@),
                        out@ == seq!['['] + debug_entries(v.take(i as int)),
                    decreases l@.len() - i,
                {
                    if i > 0 {
                        out.append(", ");
                    }
                    let text = l[i].to_string();
                    let quoted = debug_str(text.as_str());
                    out.append(quoted.as_str());
                    proof {
                        reveal_strlit(", ");
                        let t = v.take(i + 1);
                        assert(t.drop_last() =~= v.take(i as int));
                        assert(t.last() == l@[i as int]@);
                        if i == 0 {
                            assert(t[0] == l@[0]@);
                        }
                    }
                    i = i + 1;
                    assert(out@ =~= seq!['['] + debug_entries(v.take(i as int)));
                }
                assert(v.take(i as int) =~= v);
                out.append("]");
                out
            },
            Data::ResourceList => String::from_str("<Resource List>"),
            Data::FullResourceDescriptor => String::from_str("<Full Resource Descriptor>"),
            Data::ResourceRequirementsList => String::from_str("<Resource Requirements List>"),
            Data::U64(x) => {
                let mut out = String::from_str("0x0000000000000000");
                push_bytes_hex(&mut out, &be_u32_vec((*x / 0x1_0000_0000) as u32));
                let ghost mid = out@;
                push_bytes_hex(&mut out, &be_u32_vec((*x % 0x1_0000_0000) as u32));
                proof {
                    lemma_bytes_hex_append(
                        be_u32_bytes((*x / 0x1_0000_0000) as u32),
                        be_u32_bytes((*x % 0x1_0000_0000) as u32),
                    );
                }
                assert(out@ =~= display_of(self@));
                out
            },
        }
    }
}

proof fn lemma_bytes_hex_append(a: Seq<u8>, b: Seq<u8>)
    ensures
        bytes_hex(a + b) == bytes_hex(a) + bytes_hex(b),
    decreases b.len(),
{
    if b.len() == 0 {
        assert(a + b =~= a);
        assert(bytes_hex(a) + bytes_hex(b) =~= bytes_hex(a));
    } else {
        assert((a + b).drop_last() =~= a + b.drop_last());
        assert((a + b).last() == b.last());
        lemma_bytes_hex_append(a, b.drop_last());
        assert(bytes_hex(a + b) =~= bytes_hex(a) + bytes_hex(b));
    }
}

} // verus!
