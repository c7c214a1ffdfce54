//! A string held as a list of its characters.
use vstd::prelude::*;
use vstd::string::StrSliceExecFns;
use vstd::utf8::encode_utf8;
use crate::list::{AsList, Head, List, Tail};

verus! {

/// A string as a list of characters, with its length in bytes.
#[derive(Debug, PartialEq)]
pub struct StringView {
    data: List<char>,
    size: usize,
}

/// The characters of a string, in order.
fn chars_of(s: &str) -> (r: Vec<char>)
    ensures
        r@ == s@,
{
    let n = s.unicode_len();
    let mut out: Vec<char> = Vec::new();
    let mut i: usize = 0;
    while i < n
        invariant
            n == s@.len(),
            i <= n,
            out@ == s@.take(i as int),
        decreases n - i,
    {
        out.push(s.get_char(i));
        assert(s@.take(i + 1) == s@.take(i as int).push(s@[i as int]));
        i += 1;
    }
    assert(s@.take(n as int) == s@);
    out
}

impl StringView {
    /// The characters, in order.
    pub closed spec fn chars(&self) -> Seq<char> {
        self.data.elems()
    }

    /// The length in bytes of the string it was made from.
    pub closed spec fn byte_len(&self) -> nat {
        self.size as nat
    }

    /// The empty string.
    pub fn new() -> (r: StringView)
        ensures
            r.chars() == Seq::<char>::empty(),
            r.byte_len() == 0,
    {
        StringView { data: List::Null, size: 0 }
    }

    /// The characters of `data`, with its length in bytes.
    pub fn from(data: String) -> (r: StringView)
        ensures
            r.chars() == data@,
            r.byte_len() == encode_utf8(data@).len(),
    {
        let s = data.as_str();
        let size = s.as_bytes().len();
        StringView { data: List::from(chars_of(s)), size }
    }

    /// The length in bytes of the string it was made from.
    pub fn size(&self) -> (r: usize)
        ensures
            r == self.byte_len(),
    {
        self.size
    }
}

impl Head for StringView {
    type Type = char;

    fn head(&self) -> (r: Option<char>)
        ensures
            self.chars().len() == 0 ==> r is None,
            self.chars().len() > 0 ==> r == Some(self.chars()[0]),
    {
        self.data.head()
    }
}

impl Tail for StringView {
    type Type = char;

    fn tail(&self) -> (r: Option<List<char>>)
        ensures
            self.chars().len() == 0 ==> r is None,
            self.chars().len() > 0 ==> r is Some && r->Some_0.elems() == self.chars().skip(1),
    {
        let r = self.data.tail();
        proof {
            if self.chars().len() > 0 {
                assert(r->Some_0.elems() =~= self.chars().skip(1));
            }
        }
        r
    }
}

impl AsList for String {
    type T = char;

    fn as_list(&self) -> (r: List<char>)
        ensures
            r.elems() == self@,
    {
        List::from(chars_of(self.as_str()))
    }
}

} // verus!
