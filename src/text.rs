//! A short piece of text held inline, in a byte array of fixed capacity.

use vstd::prelude::*;
use vstd::string::StringSliceAdditionalSpecFns;
use vstd::utf8::{
    decode_utf8, encode_utf8, encode_utf8_decode_utf8, encode_utf8_valid_utf8, valid_utf8,
};

verus! {

/// The first `n` bytes of `s`, or all of `s` where it is shorter.
pub open spec fn truncate(s: Seq<u8>, n: nat) -> Seq<u8> {
    if s.len() <= n {
        s
    } else {
        s.subrange(0, n as int)
    }
}

/// A cut keeps a prefix of exactly the capacity where the text reaches it,
/// and all of the text where it does not.
pub proof fn lemma_truncate(s: Seq<u8>, n: nat)
    ensures
        truncate(s, n) == s.subrange(0, truncate(s, n).len() as int),
        s.len() >= n ==> truncate(s, n).len() == n,
        s.len() <= n ==> truncate(s, n) == s,
        truncate(s, n).len() == 0 <==> (s.len() == 0 || n == 0),
{
    if s.len() <= n {
        assert(s.subrange(0, s.len() as int) =~= s);
    }
}

/// Text whose encoding fits the capacity is stored whole, and reads back as
/// the same characters.
pub proof fn lemma_round_trip(s: Seq<char>, n: nat)
    requires
        encode_utf8(s).len() <= n,
    ensures
        truncate(encode_utf8(s), n) == encode_utf8(s),
        valid_utf8(truncate(encode_utf8(s), n)),
        decode_utf8(truncate(encode_utf8(s), n)) == s,
{
    encode_utf8_valid_utf8(s);
    encode_utf8_decode_utf8(s);
}

/// The last index `i <= j` at which `s` holds `d`, or -1 where there is none.
pub open spec fn last_index_upto(s: Seq<u8>, d: u8, j: int) -> int
    decreases j + 1,
{
    if j < 0 {
        -1
    } else if j < s.len() && s[j] == d {
        j
    } else {
        last_index_upto(s, d, j - 1)
    }
}

/// `s` fitted into `n` bytes by a cut at a delimiter `d`: the text before
/// the last `d` at index `n` or below, where the text is longer than `n` and
/// there is such a `d`; the first `n` bytes where there is none; all of `s`
/// where it fits.
pub open spec fn trim_at(s: Seq<u8>, d: u8, n: nat) -> Seq<u8> {
    if s.len() <= n {
        s
    } else if last_index_upto(s, d, n as int) >= 0 {
        s.subrange(0, last_index_upto(s, d, n as int))
    } else {
        s.subrange(0, n as int)
    }
}

/// What `String::from_utf8_lossy` makes of a byte sequence.
pub uninterp spec fn lossy_text(b: Seq<u8>) -> Seq<char>;

/// Relies on `String::from_utf8_lossy`: the result depends on the bytes alone,
/// and bytes that are valid UTF-8 decode to the characters they encode.
#[verifier::external_body]
fn decode_lossy(b: &[u8]) -> (r: String)
    ensures
        r@ == lossy_text(b@),
        valid_utf8(b@) ==> r@ == decode_utf8(b@),
{
    String::from_utf8_lossy(b).into_owned()
}

/// Text of at most `N` bytes, stored without heap allocation.
///
/// Its value is the first `len` bytes of `buff`; an empty value stands for
/// "absent". The bytes past `len` are never read.
#[derive(Clone, Copy, Debug)]
pub struct FixedText<const N: usize> {
    len: usize,
    buff: [u8; N],
}

impl<const N: usize> View for FixedText<N> {
    type V = Seq<u8>;

    closed spec fn view(&self) -> Seq<u8> {
        self.buff@.subrange(0, self.len as int)
    }
}

impl<const N: usize> FixedText<N> {
    #[verifier::type_invariant]
    spec fn inv(&self) -> bool {
        self.len <= N
    }

    /// The empty value.
    pub fn new() -> (r: Self)
        ensures
            r@ == Seq::<u8>::empty(),
    {
        let r = FixedText { len: 0, buff: [0u8; N] };
        assert(r@ =~= Seq::<u8>::empty());
        r
    }

    /// The first `N` bytes of `value`, or all of them where it is shorter.
    pub fn from_bytes(value: &[u8]) -> (r: Self)
        ensures
            r@ == truncate(value@, N as nat),
    {
        let len: usize = if value.len() > N {
            N
        } else {
            value.len()
        };
        let mut buff = [0u8; N];
        let mut i: usize = 0;
        while i < len
            invariant
                i <= len,
                len <= N,
                len <= value@.len(),
                buff@.len() == N,
                forall|j: int| 0 <= j < i ==> buff@[j] == value@[j],
            decreases len - i,
        {
            buff[i] = value[i];
            i += 1;
        }
        let r = FixedText { len, buff };
        assert(r@ =~= truncate(value@, N as nat));
        r
    }

    /// The first `N` bytes of the UTF-8 encoding of `value`.
    pub fn from_str(value: &str) -> (r: Self)
        ensures
            r@ == truncate(value.spec_bytes(), N as nat),
    {
        Self::from_bytes(value.as_bytes())
    }

    /// Replaces the whole value by the first `N` bytes of `value`, and returns
    /// a copy of the result.
    pub fn set(&mut self, value: &str) -> (r: Self)
        ensures
            final(self)@ == truncate(value.spec_bytes(), N as nat),
            r@ == final(self)@,
    {
        *self = Self::from_str(value);
        *self
    }

    /// Replaces the whole value by `value` where it fits; else by the text
    /// before the last delimiter `trim` that leaves at most `N` bytes, or by
    /// the first `N` bytes where there is no such delimiter. Returns a copy
    /// of the result.
    pub fn set_trim(&mut self, value: &str, trim: u8) -> (r: Self)
        ensures
            final(self)@ == trim_at(value.spec_bytes(), trim, N as nat),
            r@ == final(self)@,
    {
        let bytes = value.as_bytes();
        if bytes.len() <= N {
            *self = Self::from_bytes(bytes);
            return *self;
        }
        let mut j: usize = N;
        loop
            invariant
                j <= N < bytes@.len(),
                bytes@ == value.spec_bytes(),
                last_index_upto(bytes@, trim, N as int) == last_index_upto(bytes@, trim, j as int),
            decreases j,
        {
            if bytes[j] == trim {
                let cut = Self::from_bytes(&bytes[0..j]);
                assert(last_index_upto(bytes@, trim, j as int) == j as int);
                assert(truncate(bytes@.subrange(0, j as int), N as nat) =~= trim_at(
                    bytes@,
                    trim,
                    N as nat,
                ));
                *self = cut;
                return *self;
            }
            if j == 0 {
                assert(last_index_upto(bytes@, trim, -1) == -1);
                assert(last_index_upto(bytes@, trim, 0) == -1);
                *self = Self::from_bytes(bytes);
                return *self;
            }
            j -= 1;
        }
    }

    /// The number of bytes held.
    pub fn len(&self) -> (r: usize)
        ensures
            r == self@.len(),
            r <= N,
    {
        proof {
            use_type_invariant(self);
        }
        self.len
    }

    /// The bytes held.
    pub fn as_bytes(&self) -> (r: &[u8])
        ensures
            r@ == self@,
    {
        proof {
            use_type_invariant(self);
        }
        &self.buff[0..self.len]
    }

    /// The text held, read as UTF-8; a cut that split a character gives the
    /// replacement character in its place.
    pub fn to_string(&self) -> (r: String)
        ensures
            r@ == lossy_text(self@),
            valid_utf8(self@) ==> r@ == decode_utf8(self@),
    {
        decode_lossy(self.as_bytes())
    }

    /// `None` where the value is empty, else the text held.
    pub fn to_opt(self) -> (r: Option<String>)
        ensures
            r is None <==> self@.len() == 0,
            r matches Some(t) ==> t@ == lossy_text(self@),
            r matches Some(t) ==> (valid_utf8(self@) ==> t@ == decode_utf8(self@)),
    {
        if self.len() == 0 {
            None
        } else {
            Some(self.to_string())
        }
    }
}

impl<'a, const N: usize> From<&'a str> for FixedText<N> {
    /// The first `N` bytes of the UTF-8 encoding of `value`.
    fn from(value: &'a str) -> (r: Self)
        ensures
            r@ == truncate(value.spec_bytes(), N as nat),
    {
        Self::from_str(value)
    }
}

impl<'a, const N: usize> vstd::std_specs::convert::FromSpecImpl<&'a str> for FixedText<N> {
    open spec fn obeys_from_spec() -> bool {
        false
    }

    open spec fn from_spec(value: &'a str) -> Self {
        arbitrary()
    }
}

impl<const N: usize> From<String> for FixedText<N> {
    /// The first `N` bytes of the UTF-8 encoding of `value`.
    fn from(value: String) -> (r: Self)
        ensures
            r@ == truncate(encode_utf8(value@), N as nat),
    {
        Self::from_str(value.as_str())
    }
}

impl<const N: usize> vstd::std_specs::convert::FromSpecImpl<String> for FixedText<N> {
    open spec fn obeys_from_spec() -> bool {
        false
    }

    open spec fn from_spec(value: String) -> Self {
        arbitrary()
    }
}

impl<const N: usize> From<FixedText<N>> for String {
    /// The text held, read as UTF-8.
    fn from(value: FixedText<N>) -> (r: String)
        ensures
            r@ == lossy_text(value@),
            valid_utf8(value@) ==> r@ == decode_utf8(value@),
    {
        value.to_string()
    }
}

impl<const N: usize> vstd::std_specs::convert::FromSpecImpl<FixedText<N>> for String {
    open spec fn obeys_from_spec() -> bool {
        false
    }

    open spec fn from_spec(value: FixedText<N>) -> String {
        arbitrary()
    }
}

} // verus!
