//! A fixed-capacity counterpart of `format!`: a template of literal text and
//! `{}` / `{ident}` placeholders is compiled into a bounded output whose
//! capacity is an upper bound computed before a single character is written,
//! so that no append can ever overflow.

use vstd::prelude::*;
use vstd::string::*;

pub mod bounded;
pub mod capacity;
pub mod emit;
pub mod laws;
pub mod render;
pub mod template;

pub use bounded::ArrayStringLike;
pub use bounded::BoundedString;
pub use bounded::BufferFits;
pub use bounded::TypeNumToArrayString;
pub use bounded::StrView;
pub use bounded::astr;
pub use bounded::str_wf;
pub use emit::aformat;
pub use emit::aformat_into;
pub use render::ToArrayString;
pub use template::ArgExpr;
pub use template::Arguments;
pub use template::CompileError;
pub use template::NamedArg;
pub use template::Piece;
pub use template::PosArg;

verus! {

/// Truncation a `CapStr` applies to its text: nothing for a zero bound;
/// otherwise the text itself when it is shorter than the bound, and its
/// longest prefix strictly shorter than the bound when it is not.
pub open spec fn spec_truncated(s: Seq<char>, max: nat) -> Seq<char> {
    if max == 0 {
        Seq::empty()
    } else if s.len() < max {
        s
    } else {
        s.take((max - 1) as int)
    }
}

/// A transparent wrapper around `&str` that caps the text length at a
/// compile-time constant, so the text can stand as a formatting argument
/// with a declared maximum length.
#[derive(Clone, Copy)]
pub struct CapStr<'a, const MAX_LENGTH: usize>(pub &'a str);

impl<'a, const MAX_LENGTH: usize> CapStr<'a, MAX_LENGTH> {
    /// The capped text this wrapper exposes.
    pub fn truncated(&self) -> (r: &str)
        ensures
            r@ == spec_truncated(self.0@, MAX_LENGTH as nat),
    {
        let n = self.0.unicode_len();
        if MAX_LENGTH == 0 {
            let r = self.0.substring_char(0, 0);
            proof {
                assert(r@ =~= Seq::<char>::empty());
            }
            r
        } else if n < MAX_LENGTH {
            self.0
        } else {
            self.0.substring_char(0, MAX_LENGTH - 1)
        }
    }
}

impl<'a, const MAX_LENGTH: usize> ToArrayString for CapStr<'a, MAX_LENGTH> {
    open spec fn arg_wf(&self) -> bool {
        true
    }

    open spec fn spec_max_length(&self) -> nat {
        MAX_LENGTH as nat
    }

    open spec fn spec_rendered(&self) -> Seq<char> {
        spec_truncated(self.0@, MAX_LENGTH as nat)
    }

    fn to_arraystring(self) -> (r: BoundedString) {
        let t = self.truncated();
        let text = String::from_str(t);
        BoundedString::from_parts(text, MAX_LENGTH)
    }
}

} // verus!
