//! The code generator's two shapes. Both share one concatenation
//! subroutine: append, in piece order, each literal verbatim and each
//! argument's rendered value. The producer allocates a fresh container sized
//! exactly to the capacity bound; the writer checks the caller's container
//! against the bound and writes only if the check holds.

use vstd::prelude::*;

use crate::bounded::ArrayStringLike;
use crate::bounded::BufferFits;
use crate::bounded::TypeNumToArrayString;
use crate::bounded::BoundedString;
use crate::bounded::StrView;
use crate::bounded::str_wf;
use crate::capacity::capacity_bound;
use crate::capacity::max_sum;
use crate::capacity::spec_bound;
use crate::template::ArgExpr;
use crate::template::Arguments;
use crate::template::CompileError;
use crate::template::NamedArg;
use crate::template::NamedArgView;
use crate::template::Piece;
use crate::template::PieceView;
use crate::template::PosArg;
use crate::template::PosArgView;
use crate::template::arg_indices;
use crate::template::piece_in_range;
use crate::template::pieces_in_range;
use crate::template::lemma_parse_structure;
use crate::template::lemma_resolve_wf;
use crate::template::lit_sum;
use crate::template::named_views;
use crate::template::piece_views;
use crate::template::pos_views;
use crate::template::pos_wf;
use crate::template::scope_wf;
use crate::template::spec_parse;
use crate::template::spec_resolve;
use crate::template::str_views;

verus! {

/// The text one piece contributes to the output.
pub open spec fn piece_text(p: PieceView, bs: Seq<StrView>) -> Seq<char> {
    match p {
        PieceView::Literal { text } => text,
        PieceView::Argument { index } => if index < bs.len() {
            bs[index as int].chars
        } else {
            Seq::empty()
        },
    }
}

/// The assembled output: every piece's text, in piece order.
pub open spec fn spec_output(ps: Seq<PieceView>, bs: Seq<StrView>) -> Seq<char>
    decreases ps.len(),
{
    if ps.len() == 0 {
        Seq::empty()
    } else {
        piece_text(ps[0], bs) + spec_output(ps.drop_first(), bs)
    }
}

pub proof fn lemma_output_push(ps: Seq<PieceView>, bs: Seq<StrView>, x: PieceView)
    ensures
        spec_output(ps.push(x), bs) =~= spec_output(ps, bs) + piece_text(x, bs),
    decreases ps.len(),
{
    if ps.len() == 0 {
        reveal_with_fuel(spec_output, 2);
        assert(ps.push(x).drop_first() =~= Seq::<PieceView>::empty());
        assert(ps.push(x)[0] == x);
    } else {
        assert(ps.push(x).drop_first() =~= ps.drop_first().push(x));
        assert(ps.push(x)[0] == ps[0]);
        lemma_output_push(ps.drop_first(), bs, x);
    }
}

pub proof fn lemma_output_split(ps: Seq<PieceView>, bs: Seq<StrView>, k: int)
    requires
        0 <= k <= ps.len(),
    ensures
        spec_output(ps, bs) =~= spec_output(ps.take(k), bs) + spec_output(ps.skip(k), bs),
    decreases k,
{
    if k == 0 {
        assert(ps.take(0) =~= Seq::<PieceView>::empty());
        assert(ps.skip(0) =~= ps);
    } else {
        assert(ps.take(k)[0] == ps[0]);
        assert(ps.take(k).drop_first() =~= ps.drop_first().take(k - 1));
        assert(ps.skip(k) =~= ps.drop_first().skip(k - 1));
        lemma_output_split(ps.drop_first(), bs, k - 1);
    }
}

impl Piece {
    /// The binding slot this piece references, if it is an argument piece:
    /// the model of the synthesized per-occurrence identifier in generated
    /// code.
    pub fn as_ident(&self) -> (r: Option<usize>)
        ensures
            match self@ {
                PieceView::Argument { index } => r is Some && r->Some_0 as nat == index,
                PieceView::Literal { .. } => r is None,
            },
    {
        match self {
            Piece::Argument(i) => Some(*i),
            Piece::Literal(_) => None,
        }
    }

    /// The argument expression this piece references, if it is an argument
    /// piece: its slot index resolves against the parse's binding list.
    pub fn as_expr<'a>(&self, args: &'a Arguments) -> (r: Option<&'a ArgExpr>)
        requires
            piece_in_range(self@, args@.binds.len() as nat),
        ensures
            match self@ {
                PieceView::Argument { index } => r is Some && r->Some_0@ == args@.binds[
                    index as int
                ],
                PieceView::Literal { .. } => r is None,
            },
    {
        match self {
            Piece::Argument(i) => Some(&args.bindings[*i]),
            Piece::Literal(_) => None,
        }
    }

    /// Appends this piece's text to the output: a literal verbatim (an empty
    /// literal is elided from emission), an argument piece its binding's
    /// rendered value.
    pub fn append_into<T: ArrayStringLike>(&self, out: &mut T, binds: &Vec<BoundedString>)
        requires
            piece_in_range(self@, binds@.len() as nat),
            old(out).chars().len() + piece_text(self@, str_views(binds@)).len() <= old(
                out,
            ).max_capacity(),
        ensures
            final(out).chars() == old(out).chars() + piece_text(self@, str_views(binds@)),
            final(out).max_capacity() == old(out).max_capacity(),
    {
        match self {
            Piece::Literal(text) => {
                if !text.as_str().is_empty() {
                    out.push_str(text.as_str());
                } else {
                    proof {
                        assert(out.chars() + text@ =~= out.chars());
                    }
                }
            },
            Piece::Argument(i) => {
                proof {
                    assert(str_views(binds@)[*i as int] == binds@[*i as int]@);
                }
                out.push_str(binds[*i].as_str());
            },
        }
    }
}

/// The shared concatenation subroutine: appends every piece in order.
pub fn append_pieces<T: ArrayStringLike>(out: &mut T, pieces: &Vec<Piece>, binds: &Vec<
    BoundedString,
>)
    requires
        pieces_in_range(piece_views(pieces@), binds@.len() as nat),
        old(out).chars().len() + spec_output(piece_views(pieces@), str_views(binds@)).len() <= old(
            out,
        ).max_capacity(),
    ensures
        final(out).chars() == old(out).chars() + spec_output(
            piece_views(pieces@),
            str_views(binds@),
        ),
        final(out).max_capacity() == old(out).max_capacity(),
{
    let ghost ps = piece_views(pieces@);
    let ghost bs = str_views(binds@);
    let ghost start = out.chars();
    let ghost cap0 = out.max_capacity();
    let n = pieces.len();
    let mut k: usize = 0;
    proof {
        assert(ps.take(0) =~= Seq::<PieceView>::empty());
        assert(start + spec_output(ps.take(0), bs) =~= start);
    }
    while k < n
        invariant
            k <= n,
            n == pieces@.len(),
            ps == piece_views(pieces@),
            bs == str_views(binds@),
            pieces_in_range(ps, binds@.len() as nat),
            out.chars() == start + spec_output(ps.take(k as int), bs),
            out.max_capacity() == cap0,
            start.len() + spec_output(ps, bs).len() <= cap0,
        decreases n - k,
    {
        proof {
            lemma_output_split(ps, bs, k as int);
            lemma_output_split(ps, bs, k as int + 1);
            assert(ps.skip(k as int)[0] == ps[k as int]);
            assert(ps.skip(k as int).drop_first() =~= ps.skip(k as int + 1));
            assert(ps.take(k as int + 1) =~= ps.take(k as int).push(ps[k as int]));
            lemma_output_push(ps.take(k as int), bs, ps[k as int]);
            assert(piece_in_range(ps[k as int], binds@.len() as nat));
        }
        pieces[k].append_into(out, binds);
        k += 1;
    }
    proof {
        assert(ps.take(n as int) =~= ps);
    }
}

/// One whole compilation, producer shaped: parse the template, resolve every
/// binding, and deliver the assembled text together with the capacity bound
/// it is to be held in.
pub open spec fn spec_aformat(
    tpl: Seq<char>,
    pos: Seq<PosArgView>,
    scope: Seq<NamedArgView>,
) -> Result<StrView, CompileError> {
    match spec_parse(tpl, pos) {
        Err(e) => Err(e),
        Ok(o) => match spec_resolve(o.binds, scope) {
            Err(e) => Err(e),
            Ok(bs) => Ok(
                StrView { chars: spec_output(o.pieces, bs), cap: spec_bound(o.pieces, bs) },
            ),
        },
    }
}

/// Capacity soundness: when each binding slot is referenced exactly once, in
/// slot order, and every value honours its declared maximum, the assembled
/// output never exceeds the capacity bound.
pub proof fn lemma_capacity_sound(ps: Seq<PieceView>, bs: Seq<StrView>)
    requires
        arg_indices(ps) =~= Seq::new(bs.len() as nat, |k: int| k as nat),
        forall|i: int| 0 <= i < bs.len() ==> str_wf(#[trigger] bs[i]),
    ensures
        spec_output(ps, bs).len() <= spec_bound(ps, bs),
{
    lemma_output_le(ps, bs, 0);
    assert(bs.skip(0) =~= bs);
}

/// Producer mode: compiles the template and assembles the output into a
/// fresh bounded string whose capacity equals the capacity bound exactly.
/// Succeeds exactly when the template and arguments compile; each error of
/// the grammar and of binding is returned as the grammar produces it.
pub fn aformat(template: &str, positional: &Vec<PosArg>, scope: &Vec<NamedArg>) -> (r: Result<
    BoundedString,
    CompileError,
>)
    requires
        pos_wf(pos_views(positional@)),
        scope_wf(named_views(scope@)),
        spec_aformat(template@, pos_views(positional@), named_views(scope@)) is Ok ==> spec_aformat(
            template@,
            pos_views(positional@),
            named_views(scope@),
        )->Ok_0.cap <= usize::MAX,
    ensures
        match spec_aformat(template@, pos_views(positional@), named_views(scope@)) {
            Ok(v) => r is Ok && r->Ok_0@ == v && r->Ok_0.wf(),
            Err(e) => r == Err::<BoundedString, CompileError>(e),
        },
{
    let args = match Arguments::parse(template, positional) {
        Ok(a) => a,
        Err(e) => {
            return Err(e);
        },
    };
    let binds = match args.resolve(scope) {
        Ok(b) => b,
        Err(e) => {
            return Err(e);
        },
    };
    proof {
        lemma_parse_structure(template@, pos_views(positional@));
        lemma_resolve_wf(args@.binds, named_views(scope@));
        lemma_capacity_sound(args@.pieces, str_views(binds@));
    }
    let bound = match capacity_bound(&args, &binds) {
        Some(b) => b,
        None => {
            proof {
                assert(false);
            }
            0
        },
    };
    let mut out: BoundedString = TypeNumToArrayString::make(&bound);
    append_pieces(&mut out, &args.pieces, &binds);
    Ok(out)
}

/// Writer mode: compiles the template and appends the output to the
/// caller's bounded string, after checking that the destination's capacity
/// is at least the capacity bound. A too-small destination is rejected
/// before a single character is written — never silently truncated.
pub fn aformat_into(
    out: &mut BoundedString,
    template: &str,
    positional: &Vec<PosArg>,
    scope: &Vec<NamedArg>,
) -> (r: Result<(), CompileError>)
    requires
        pos_wf(pos_views(positional@)),
        scope_wf(named_views(scope@)),
        ({
            let c = spec_aformat(template@, pos_views(positional@), named_views(scope@));
            c is Ok && c->Ok_0.cap <= old(out)@.cap ==> old(out)@.chars.len() + c->Ok_0.cap <= old(
                out,
            )@.cap
        }),
    ensures
        match spec_aformat(template@, pos_views(positional@), named_views(scope@)) {
            Err(e) => r == Err::<(), CompileError>(e) && final(out)@ == old(out)@,
            Ok(v) => if v.cap <= old(out)@.cap {
                &&& r is Ok
                &&& final(out)@.chars == old(out)@.chars + v.chars
                &&& final(out)@.cap == old(out)@.cap
                &&& final(out).wf()
            } else {
                &&& r == Err::<(), CompileError>(CompileError::CapacityInsufficient)
                &&& final(out)@ == old(out)@
            },
        },
{
    let args = match Arguments::parse(template, positional) {
        Ok(a) => a,
        Err(e) => {
            return Err(e);
        },
    };
    let binds = match args.resolve(scope) {
        Ok(b) => b,
        Err(e) => {
            return Err(e);
        },
    };
    proof {
        lemma_parse_structure(template@, pos_views(positional@));
        lemma_resolve_wf(args@.binds, named_views(scope@));
        lemma_capacity_sound(args@.pieces, str_views(binds@));
    }
    let bound = match capacity_bound(&args, &binds) {
        Some(b) => b,
        None => {
            proof {
                out.lemma_cap_in_range();
            }
            return Err(CompileError::CapacityInsufficient);
        },
    };
    if !out.buffer_fits(bound) {
        return Err(CompileError::CapacityInsufficient);
    }
    append_pieces(out, &args.pieces, &binds);
    Ok(())
}

proof fn lemma_output_le(ps: Seq<PieceView>, bs: Seq<StrView>, base: nat)
    requires
        base <= bs.len(),
        arg_indices(ps) =~= Seq::new((bs.len() - base) as nat, |k: int| (base + k) as nat),
        forall|i: int| 0 <= i < bs.len() ==> str_wf(#[trigger] bs[i]),
    ensures
        spec_output(ps, bs).len() <= lit_sum(ps) + max_sum(bs.skip(base as int)),
    decreases ps.len(),
{
    if ps.len() == 0 {
    } else {
        match ps[0] {
            PieceView::Literal { text } => {
                assert(arg_indices(ps) == arg_indices(ps.drop_first()));
                lemma_output_le(ps.drop_first(), bs, base);
            },
            PieceView::Argument { index } => {
                assert(arg_indices(ps) == seq![index] + arg_indices(ps.drop_first()));
                assert(arg_indices(ps).len() >= 1);
                assert(base < bs.len());
                assert(arg_indices(ps)[0] == index);
                assert(index == base);
                assert(arg_indices(ps.drop_first()) =~= Seq::new(
                    (bs.len() - (base + 1)) as nat,
                    |k: int| (base + 1 + k) as nat,
                )) by {
                    assert(arg_indices(ps) == seq![index] + arg_indices(ps.drop_first()));
                    assert(forall|k: int|
                        0 <= k < arg_indices(ps.drop_first()).len() ==> arg_indices(
                            ps.drop_first(),
                        )[k] == arg_indices(ps)[k + 1]);
                }
                lemma_output_le(ps.drop_first(), bs, base + 1);
                assert(bs.skip(base as int)[0] == bs[base as int]);
                assert(bs.skip(base as int).drop_first() =~= bs.skip(base as int + 1));
                assert(str_wf(bs[base as int]));
            },
        }
    }
}

} // verus!
