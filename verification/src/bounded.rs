//! The bounded string container: a string-like value with a fixed capacity,
//! whose every append is checked against that capacity.

use vstd::prelude::*;
use vstd::string::*;

verus! {

/// Mathematical model of a bounded string: the characters it holds and its
/// declared capacity, both measured in characters.
#[verifier::ext_equal]
pub ghost struct StrView {
    pub chars: Seq<char>,
    pub cap: nat,
}

/// A bounded string is well formed when its text fits its declared capacity.
pub open spec fn str_wf(v: StrView) -> bool {
    v.chars.len() <= v.cap
}

/// A string container with a fixed capacity. The capacity is chosen at
/// construction and never changes; appends require that the result still fits.
#[derive(Debug)]
pub struct BoundedString {
    text: String,
    cap: usize,
}

impl View for BoundedString {
    type V = StrView;

    closed spec fn view(&self) -> StrView {
        StrView { chars: self.text@, cap: self.cap as nat }
    }
}

/// The interface the assembly step needs from an output container:
/// empty construction and capacity-checked append.
pub trait ArrayStringLike: Sized {
    spec fn chars(&self) -> Seq<char>;

    spec fn max_capacity(&self) -> nat;

    fn new(capacity: usize) -> (r: Self)
        ensures
            r.chars() == Seq::<char>::empty(),
            r.max_capacity() == capacity as nat,
    ;

    fn push_str(&mut self, s: &str)
        requires
            old(self).chars().len() + s@.len() <= old(self).max_capacity(),
        ensures
            final(self).chars() == old(self).chars() + s@,
            final(self).max_capacity() == old(self).max_capacity(),
    ;
}

impl ArrayStringLike for BoundedString {
    open spec fn chars(&self) -> Seq<char> {
        self@.chars
    }

    open spec fn max_capacity(&self) -> nat {
        self@.cap
    }

    fn new(capacity: usize) -> (r: Self) {
        BoundedString { text: String::new(), cap: capacity }
    }

    fn push_str(&mut self, s: &str) {
        self.text.append(s);
    }
}

/// Maps a capacity to the container it denotes. Compile-time capacities
/// appear in this library as plain values, so the capacity type is `usize`
/// and the container it produces is always `BoundedString`.
pub trait TypeNumToArrayString {
    type ArrayString: ArrayStringLike;

    spec fn capacity_of(&self) -> nat;

    /// An empty container of exactly this capacity.
    fn make(&self) -> (r: Self::ArrayString)
        ensures
            r.chars() == Seq::<char>::empty(),
            r.max_capacity() == self.capacity_of(),
    ;
}

impl TypeNumToArrayString for usize {
    type ArrayString = BoundedString;

    open spec fn capacity_of(&self) -> nat {
        *self as nat
    }

    fn make(&self) -> (r: BoundedString) {
        ArrayStringLike::new(*self)
    }
}

/// The writer-mode admission check: whether a destination's declared
/// capacity can take a computed bound. The check looks at the capacity
/// alone, never at the destination's current contents.
pub trait BufferFits {
    spec fn fits(&self, bound: nat) -> bool;

    fn buffer_fits(&self, bound: usize) -> (r: bool)
        ensures
            r == self.fits(bound as nat),
    ;
}

impl BufferFits for BoundedString {
    open spec fn fits(&self, bound: nat) -> bool {
        bound <= self@.cap
    }

    fn buffer_fits(&self, bound: usize) -> (r: bool) {
        bound <= self.cap
    }
}

impl BoundedString {
    /// Well-formedness: the text fits the capacity. Every constructor
    /// establishes this and every method preserves it.
    pub open spec fn wf(&self) -> bool {
        str_wf(self@)
    }

    /// Builds a bounded string from a text that is known to fit.
    pub(crate) fn from_parts(text: String, cap: usize) -> (r: Self)
        requires
            text@.len() <= cap,
        ensures
            r@ == (StrView { chars: text@, cap: cap as nat }),
            r.wf(),
    {
        BoundedString { text, cap }
    }

    pub fn as_str(&self) -> (r: &str)
        ensures
            r@ == self@.chars,
    {
        self.text.as_str()
    }

    /// The number of characters currently held.
    pub fn len(&self) -> (r: usize)
        ensures
            r as nat == self@.chars.len(),
    {
        self.text.as_str().unicode_len()
    }

    pub fn capacity(&self) -> (r: usize)
        ensures
            r as nat == self@.cap,
    {
        self.cap
    }

    /// The declared capacity is a machine-word value.
    pub proof fn lemma_cap_in_range(&self)
        ensures
            self@.cap <= usize::MAX,
    {
    }
}

impl Clone for BoundedString {
    fn clone(&self) -> (r: Self)
        ensures
            r == *self,
    {
        BoundedString { text: self.text.clone(), cap: self.cap }
    }
}

/// A perfectly fitting bounded string made from a literal: its capacity
/// equals the literal's length exactly.
pub fn astr(s: &str) -> (r: BoundedString)
    ensures
        r@.chars == s@,
        r@.cap == s@.len(),
        r.wf(),
{
    let n = s.unicode_len();
    let text = String::from_str(s);
    BoundedString::from_parts(text, n)
}

} // verus!
