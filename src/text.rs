use vstd::prelude::*;

use crate::value::Error;

verus! {

/// The UTF-16 code units of one character: one unit below `0x10000`, else a
/// high surrogate followed by a low surrogate.
pub open spec fn char_units(c: char) -> Seq<u16> {
    let v = c as u32;
    if v < 0x10000 {
        seq![v as u16]
    } else {
        seq![(0xD800 + (v - 0x10000) / 0x400) as u16, (0xDC00 + (v - 0x10000) % 0x400) as u16]
    }
}

/// The UTF-16 encoding of a character sequence.
pub open spec fn utf16_of(cs: Seq<char>) -> Seq<u16>
    decreases cs.len(),
{
    if cs.len() == 0 {
        Seq::empty()
    } else {
        utf16_of(cs.drop_last()) + char_units(cs.last())
    }
}

/// Well-formed UTF-16: the encoding of some character sequence, that is,
/// no unpaired surrogate.
pub open spec fn valid_utf16(u: Seq<u16>) -> bool {
    exists|cs: Seq<char>| utf16_of(cs) == u
}

/// What a wide string may hold: well-formed UTF-16 without a NUL unit.
pub open spec fn is_wide_text(u: Seq<u16>) -> bool {
    &&& !u.contains(0u16)
    &&& valid_utf16(u)
}

/// The position of the first NUL unit, or the length when there is none.
pub open spec fn first_nul(u: Seq<u16>) -> int
    decreases u.len(),
{
    if u.len() == 0 {
        0
    } else if u[0] == 0 {
        0
    } else {
        1 + first_nul(u.drop_first())
    }
}

/// Checking code units as the content of a wide string: a NUL is refused
/// first, then malformed UTF-16.
pub open spec fn text_from_units(u: Seq<u16>) -> Result<Seq<u16>, Error> {
    if u.contains(0u16) {
        Err(Error::InvalidNul)
    } else if !valid_utf16(u) {
        Err(Error::InvalidUtf16)
    } else {
        Ok(u)
    }
}

/// `first_nul` is the position of the first NUL, and every unit before it
/// is not a NUL.
pub proof fn lemma_first_nul(u: Seq<u16>)
    ensures
        0 <= first_nul(u) <= u.len(),
        forall|j: int| 0 <= j < first_nul(u) ==> u[j] != 0,
        u.contains(0u16) <==> first_nul(u) < u.len(),
        first_nul(u) < u.len() ==> u[first_nul(u)] == 0,
    decreases u.len(),
{
    if u.len() > 0 && u[0] != 0 {
        let t = u.drop_first();
        lemma_first_nul(t);
        assert forall|j: int| 0 <= j < first_nul(u) implies u[j] != 0 by {
            if j > 0 {
                assert(u[j] == t[j - 1]);
            }
        }
        if u.contains(0u16) {
            let k = choose|k: int| 0 <= k < u.len() && u[k] == 0u16;
            assert(t[k - 1] == 0u16);
        }
        if first_nul(u) < u.len() {
            assert(u[first_nul(u)] == t[first_nul(t)]);
        }
    } else if u.len() > 0 {
        assert(u[0] == 0u16);
    }
}

/// A NUL-free prefix followed by a NUL ends at that NUL.
pub proof fn lemma_first_nul_after_text(t: Seq<u16>, rest: Seq<u16>)
    requires
        !t.contains(0u16),
    ensures
        first_nul(t + seq![0u16] + rest) == t.len(),
    decreases t.len(),
{
    let u = t + seq![0u16] + rest;
    if t.len() > 0 {
        assert(t[0] != 0u16);
        assert(u.drop_first() =~= t.drop_first() + seq![0u16] + rest);
        assert(!t.drop_first().contains(0u16)) by {
            if t.drop_first().contains(0u16) {
                let k = choose|k: int| 0 <= k < t.drop_first().len() && t.drop_first()[k] == 0u16;
                assert(t[k + 1] == 0u16);
            }
        }
        lemma_first_nul_after_text(t.drop_first(), rest);
    } else {
        assert(u[0] == 0u16);
    }
}

/// A character other than NUL encodes to non-NUL units.
pub proof fn lemma_char_units_nul_free(c: char)
    requires
        c != '\0',
    ensures
        !char_units(c).contains(0u16),
{
    let v = c as u32;
    assert(v != 0) by {
        if v == 0 {
            assert(c == '\0');
        }
    }
    if v >= 0x10000 {
        assert((v - 0x10000) / 0x400 <= 0x3FF);
    }
}

/// Text without a NUL character encodes to units without a NUL.
pub proof fn lemma_utf16_of_nul_free(cs: Seq<char>)
    requires
        !cs.contains('\0'),
    ensures
        !utf16_of(cs).contains(0u16),
    decreases cs.len(),
{
    if cs.len() > 0 {
        let init = cs.drop_last();
        assert(!init.contains('\0')) by {
            if init.contains('\0') {
                let k = choose|k: int| 0 <= k < init.len() && init[k] == '\0';
                assert(cs[k] == '\0');
            }
        }
        assert(cs.last() != '\0') by {
            assert(cs[cs.len() - 1] == cs.last());
        }
        lemma_utf16_of_nul_free(init);
        lemma_char_units_nul_free(cs.last());
        let a = utf16_of(init);
        let b = char_units(cs.last());
        if (a + b).contains(0u16) {
            let k = choose|k: int| 0 <= k < (a + b).len() && (a + b)[k] == 0u16;
            if k < a.len() {
                assert(a[k] == 0u16);
            } else {
                assert(b[k - a.len()] == 0u16);
            }
        }
    }
}

/// The text that well-formed UTF-16 encodes (unique, by
/// `lemma_utf16_of_injective`).
pub open spec fn text_of(u: Seq<u16>) -> Seq<char> {
    choose|cs: Seq<char>| utf16_of(cs) == u
}

proof fn lemma_char_units_shape(c: char)
    ensures
        (c as u32) < 0x10000 ==> char_units(c).len() == 1 && !(0xDC00 <= char_units(c)[0] <= 0xDFFF),
        (c as u32) >= 0x10000 ==> char_units(c).len() == 2 && 0xDC00 <= char_units(c)[1] <= 0xDFFF,
{
}

proof fn lemma_char_units_injective(a: char, b: char)
    requires
        char_units(a) == char_units(b),
    ensures
        a == b,
{
    let x = a as u32;
    let y = b as u32;
    if x >= 0x10000 && y >= 0x10000 {
        let qa = (x - 0x10000) / 0x400;
        let ra = (x - 0x10000) % 0x400;
        let qb = (y - 0x10000) / 0x400;
        let rb = (y - 0x10000) % 0x400;
        assert(char_units(a)[0] == char_units(b)[0]);
        assert(char_units(a)[1] == char_units(b)[1]);
        assert(qa == qb && ra == rb);
        assert(x == 0x10000 + qa * 0x400 + ra);
        assert(y == 0x10000 + qb * 0x400 + rb);
        assert(x == y);
    } else if x < 0x10000 && y < 0x10000 {
        assert(char_units(a) == seq![x as u16]);
        assert(char_units(b) == seq![y as u16]);
        assert(seq![x as u16][0] == seq![y as u16][0]);
        assert(x == y);
    } else {
        assert(char_units(a).len() != char_units(b).len());
    }
    assert(x == y);
}

/// Two character sequences with the same UTF-16 encoding are equal.
#[verifier::rlimit(30)]
pub proof fn lemma_utf16_of_injective(a: Seq<char>, b: Seq<char>)
    requires
        utf16_of(a) == utf16_of(b),
    ensures
        a == b,
    decreases a.len(),
{
    if a.len() == 0 || b.len() == 0 {
        if a.len() > 0 {
            assert(utf16_of(a).len() >= char_units(a.last()).len());
        }
        if b.len() > 0 {
            assert(utf16_of(b).len() >= char_units(b.last()).len());
        }
        assert(a =~= b);
    } else {
        let (ca, cb) = (a.last(), b.last());
        let (pa, pb) = (utf16_of(a.drop_last()), utf16_of(b.drop_last()));
        let (ua, ub) = (char_units(ca), char_units(cb));
        let u = utf16_of(a);
        lemma_char_units_shape(ca);
        lemma_char_units_shape(cb);
        assert(u == pa + ua && u == pb + ub);
        assert(u.last() == ua.last() && u.last() == ub.last());
        assert(ua.len() == ub.len()) by {
            if ua.len() == 1 && ub.len() == 2 {
                assert(ua[0] == ub[1]);
            } else if ua.len() == 2 && ub.len() == 1 {
                assert(ua[1] == ub[0]);
            }
        }
        assert(pa =~= u.take(u.len() - ua.len()));
        assert(pb =~= u.take(u.len() - ub.len()));
        assert(ua =~= u.skip(u.len() - ua.len()));
        assert(ub =~= u.skip(u.len() - ub.len()));
        lemma_char_units_injective(ca, cb);
        lemma_utf16_of_injective(a.drop_last(), b.drop_last());
        assert(a =~= a.drop_last().push(ca));
        assert(b =~= b.drop_last().push(cb));
    }
}

/// Relies on utfx's `U16CString::from_str`: the UTF-16 code units of `s`
/// (without terminator), refused when `s` holds a NUL character.
#[verifier::external_body]
fn units_of_str(s: &str) -> (r: Option<Vec<u16>>)
    ensures
        r.is_some() <==> !s@.contains('\0'),
        r matches Some(v) ==> v@ == utf16_of(s@),
{
    utfx::U16CString::from_str(s).ok().map(|w| w.into_vec())
}

/// Relies on utfx's `U16CString::new` and `into_vec`: the units come back
/// unchanged, refused when they hold a NUL.
#[verifier::external_body]
fn nul_free_units(v: Vec<u16>) -> (r: Option<Vec<u16>>)
    ensures
        r.is_some() <==> !v@.contains(0u16),
        r matches Some(t) ==> t@ == v@,
{
    utfx::U16CString::new(v).ok().map(|w| w.into_vec())
}

/// Relies on utfx's `U16CString::from_vec_with_nul` and `into_vec`: the
/// units before the first NUL, refused when there is no NUL.
#[verifier::external_body]
pub(crate) fn units_before_nul(v: Vec<u16>) -> (r: Option<Vec<u16>>)
    ensures
        r.is_some() <==> v@.contains(0u16),
        r matches Some(t) ==> t@ == v@.take(first_nul(v@)),
{
    utfx::U16CString::from_vec_with_nul(v).ok().map(|w| w.into_vec())
}

/// Relies on std's `String::from_utf16`: the text that well-formed UTF-16
/// encodes, refused on an unpaired surrogate.
#[verifier::external_body]
fn string_from_utf16(v: &[u16]) -> (r: Option<String>)
    ensures
        r.is_some() <==> valid_utf16(v@),
        r matches Some(s) ==> utf16_of(s@) == v@,
{
    String::from_utf16(v).ok()
}

/// A NUL-free, well-formed UTF-16 string, held without its terminator.
#[derive(Debug, PartialEq, Eq)]
pub struct WideString {
    units: Vec<u16>,
}

impl View for WideString {
    type V = Seq<u16>;

    closed spec fn view(&self) -> Seq<u16> {
        self.units@
    }
}

impl Clone for WideString {
    fn clone(&self) -> (r: WideString)
        ensures
            r@ == self@,
    {
        proof {
            use_type_invariant(self);
        }
        let units = self.units.clone();
        assert(units@ =~= self.units@);
        WideString { units }
    }
}

impl WideString {
    #[verifier::type_invariant]
    spec fn well_formed(&self) -> bool {
        is_wide_text(self.units@)
    }

    /// The UTF-16 form of `s`; a NUL character in `s` is refused.
    pub fn from_str(s: &str) -> (r: Result<WideString, Error>)
        ensures
            r is Ok <==> !s@.contains('\0'),
            r matches Ok(w) ==> w@ == utf16_of(s@),
            r matches Err(e) ==> e == Error::InvalidNul,
    {
        match units_of_str(s) {
            Some(units) => {
                proof {
                    lemma_utf16_of_nul_free(s@);
                    assert(utf16_of(s@) == units@);
                }
                Ok(WideString { units })
            },
            None => Err(Error::InvalidNul),
        }
    }

    /// A wide string holding exactly the given units, when they are free of
    /// NUL and well-formed UTF-16.
    pub fn from_units(v: Vec<u16>) -> (r: Result<WideString, Error>)
        ensures
            match r {
                Ok(w) => text_from_units(v@) == Ok::<Seq<u16>, Error>(w@),
                Err(e) => text_from_units(v@) == Err::<Seq<u16>, Error>(e),
            },
    {
        match nul_free_units(v) {
            None => Err(Error::InvalidNul),
            Some(units) => {
                match string_from_utf16(units.as_slice()) {
                    None => Err(Error::InvalidUtf16),
                    Some(_) => Ok(WideString { units }),
                }
            },
        }
    }

    /// The code units, without terminator.
    pub fn as_slice(&self) -> (r: &[u16])
        ensures
            r@ == self@,
    {
        self.units.as_slice()
    }

    /// The text that the units encode.
    pub fn to_string(&self) -> (r: String)
        ensures
            utf16_of(r@) == self@,
            r@ == text_of(self@),
    {
        proof {
            use_type_invariant(self);
        }
        match string_from_utf16(self.units.as_slice()) {
            Some(s) => {
                proof {
                    let cs = text_of(self@);
                    assert(utf16_of(cs) == self@);
                    lemma_utf16_of_injective(s@, cs);
                }
                s
            },
            None => String::new(),
        }
    }
}

} // verus!
