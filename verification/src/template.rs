//! The template parser and argument binder: a format string is split into an
//! ordered sequence of literal and argument pieces, positional placeholders
//! consume the supplied expressions in order, and named placeholders are
//! resolved against the caller's scope.

use vstd::prelude::*;
use vstd::string::*;

use crate::bounded::BoundedString;
use crate::bounded::StrView;
use crate::bounded::str_wf;

verus! {

/// A build-time error: this template and these arguments cannot be compiled.
/// No error is recoverable; each one means the call site must be corrected.
#[derive(Clone, Copy, Debug, PartialEq, Eq, Structural)]
pub enum CompileError {
    /// A `{` without a matching `}`.
    UnterminatedPlaceholder,
    /// A positional placeholder with no supplied expression left to consume.
    MissingArgument,
    /// A consumed expression is not followed by the comma separator although
    /// further input follows it.
    MissingSeparator,
    /// A named placeholder whose identifier is not in scope.
    UnknownArgument,
    /// Writer mode only: the destination's capacity is below the computed bound.
    CapacityInsufficient,
}

/// Model of a parsed piece: literal text, or a reference to the binding slot
/// with the given index.
#[verifier::ext_equal]
pub ghost enum PieceView {
    Literal { text: Seq<char> },
    Argument { index: nat },
}

/// Model of a bound argument expression: a value consumed positionally, or a
/// name still to be looked up in the caller's scope.
#[verifier::ext_equal]
pub ghost enum ArgExprView {
    Value { value: StrView },
    Named { name: Seq<char> },
}

/// Model of a supplied positional argument: its value and whether a comma
/// separator follows it at the call site.
#[verifier::ext_equal]
pub ghost struct PosArgView {
    pub value: StrView,
    pub followed_by_comma: bool,
}

/// Model of one name in the caller's scope.
#[verifier::ext_equal]
pub ghost struct NamedArgView {
    pub name: Seq<char>,
    pub value: StrView,
}

/// Model of a parse result: the ordered pieces and the binding list.
#[verifier::ext_equal]
pub ghost struct ArgumentsView {
    pub pieces: Seq<PieceView>,
    pub binds: Seq<ArgExprView>,
}

/// A parsed unit of output. An `Argument` piece holds the index of its
/// binding slot: each placeholder occurrence gets a fresh slot, so the index
/// doubles as the synthesized internal name of the binding.
pub enum Piece {
    Literal(String),
    Argument(usize),
}

impl View for Piece {
    type V = PieceView;

    open spec fn view(&self) -> PieceView {
        match self {
            Piece::Literal(s) => PieceView::Literal { text: s@ },
            Piece::Argument(i) => PieceView::Argument { index: *i as nat },
        }
    }
}

/// A bound argument expression.
pub enum ArgExpr {
    Value(BoundedString),
    Named(String),
}

impl View for ArgExpr {
    type V = ArgExprView;

    open spec fn view(&self) -> ArgExprView {
        match self {
            ArgExpr::Value(b) => ArgExprView::Value { value: b@ },
            ArgExpr::Named(s) => ArgExprView::Named { name: s@ },
        }
    }
}

/// A positional argument expression supplied at the call site, together with
/// the piece of call-site syntax the binder checks: whether a comma follows it.
pub struct PosArg {
    pub value: BoundedString,
    pub followed_by_comma: bool,
}

impl View for PosArg {
    type V = PosArgView;

    open spec fn view(&self) -> PosArgView {
        PosArgView { value: self.value@, followed_by_comma: self.followed_by_comma }
    }
}

/// A name the caller has in scope, with the value it denotes.
pub struct NamedArg {
    pub name: String,
    pub value: BoundedString,
}

impl View for NamedArg {
    type V = NamedArgView;

    open spec fn view(&self) -> NamedArgView {
        NamedArgView { name: self.name@, value: self.value@ }
    }
}

pub open spec fn piece_views(s: Seq<Piece>) -> Seq<PieceView> {
    s.map_values(|p: Piece| p@)
}

pub open spec fn bind_views(s: Seq<ArgExpr>) -> Seq<ArgExprView> {
    s.map_values(|b: ArgExpr| b@)
}

pub open spec fn pos_views(s: Seq<PosArg>) -> Seq<PosArgView> {
    s.map_values(|a: PosArg| a@)
}

pub open spec fn named_views(s: Seq<NamedArg>) -> Seq<NamedArgView> {
    s.map_values(|a: NamedArg| a@)
}

pub open spec fn str_views(s: Seq<BoundedString>) -> Seq<StrView> {
    s.map_values(|b: BoundedString| b@)
}

/// Index of the first occurrence of `c` in `s`, if any.
pub open spec fn find_char(s: Seq<char>, c: char) -> Option<nat>
    decreases s.len(),
{
    if s.len() == 0 {
        None
    } else if s[0] == c {
        Some(0 as nat)
    } else {
        match find_char(s.drop_first(), c) {
            None => None,
            Some(i) => Some((i + 1) as nat),
        }
    }
}

/// `find_char` returns the first occurrence: the character is there, and no
/// earlier position holds it.
pub proof fn lemma_find_char(s: Seq<char>, c: char)
    ensures
        match find_char(s, c) {
            Some(i) => i < s.len() && s[i as int] == c && (forall|j: int| 0 <= j < i ==> s[j] != c),
            None => forall|j: int| 0 <= j < s.len() ==> s[j] != c,
        },
    decreases s.len(),
{
    if s.len() == 0 {
    } else if s[0] == c {
    } else {
        lemma_find_char(s.drop_first(), c);
        let rest = s.drop_first();
        assert(forall|j: int| 0 <= j < rest.len() ==> rest[j] == s[j + 1]);
        match find_char(rest, c) {
            None => {
                assert forall|j: int| 0 <= j < s.len() implies s[j] != c by {
                    if j > 0 {
                        assert(s[j] == rest[j - 1]);
                    }
                }
            },
            Some(i) => {
                assert(s[i as int + 1] == rest[i as int]);
                assert forall|j: int| 0 <= j < i as int + 1 implies s[j] != c by {
                    if j > 0 {
                        assert(s[j] == rest[j - 1]);
                    }
                }
            },
        }
    }
}

/// The template grammar, stated as a recursive function on the remaining
/// text. `p` positional expressions and `nb` placeholders have already been
/// consumed. Scanning finds the next `{`; the text before it becomes a
/// literal piece; a missing `}` is fatal; empty braces consume the next
/// positional expression (checking its separator), and any other brace text
/// is a name looked up later. Parsing is total and deterministic.
pub open spec fn spec_parse_rec(
    s: Seq<char>,
    pos: Seq<PosArgView>,
    p: nat,
    nb: nat,
) -> Result<ArgumentsView, CompileError>
    decreases s.len(),
    via spec_parse_rec_decreases
{
    match find_char(s, '{') {
        None => Ok(
            ArgumentsView { pieces: seq![PieceView::Literal { text: s }], binds: seq![] },
        ),
        Some(i) => {
            let after = s.skip(i as int + 1);
            match find_char(after, '}') {
                None => Err(CompileError::UnterminatedPlaceholder),
                Some(j) => {
                    let before = PieceView::Literal { text: s.take(i as int) };
                    let name = after.take(j as int);
                    let rest = after.skip(j as int + 1);
                    if name.len() == 0 {
                        if p >= pos.len() {
                            Err(CompileError::MissingArgument)
                        } else if !pos[p as int].followed_by_comma && p + 1 < pos.len() {
                            Err(CompileError::MissingSeparator)
                        } else {
                            match spec_parse_rec(rest, pos, p + 1, nb + 1) {
                                Err(e) => Err(e),
                                Ok(o) => Ok(
                                    ArgumentsView {
                                        pieces: seq![before, PieceView::Argument { index: nb }]
                                            + o.pieces,
                                        binds: seq![
                                            ArgExprView::Value { value: pos[p as int].value },
                                        ] + o.binds,
                                    },
                                ),
                            }
                        }
                    } else {
                        match spec_parse_rec(rest, pos, p, nb + 1) {
                            Err(e) => Err(e),
                            Ok(o) => Ok(
                                ArgumentsView {
                                    pieces: seq![before, PieceView::Argument { index: nb }]
                                        + o.pieces,
                                    binds: seq![ArgExprView::Named { name: name }] + o.binds,
                                },
                            ),
                        }
                    }
                },
            }
        },
    }
}

#[via_fn]
proof fn spec_parse_rec_decreases(s: Seq<char>, pos: Seq<PosArgView>, p: nat, nb: nat) {
    lemma_find_char(s, '{');
    match find_char(s, '{') {
        None => {},
        Some(i) => {
            lemma_find_char(s.skip(i as int + 1), '}');
        },
    }
}

/// Parsing a whole template: the empty template yields no pieces at all;
/// any other template is parsed from its start with nothing yet consumed.
pub open spec fn spec_parse(tpl: Seq<char>, pos: Seq<PosArgView>) -> Result<
    ArgumentsView,
    CompileError,
> {
    if tpl.len() == 0 {
        Ok(ArgumentsView { pieces: seq![], binds: seq![] })
    } else {
        spec_parse_rec(tpl, pos, 0, 0)
    }
}

/// The contribution of one piece to the literal-length accumulator.
pub open spec fn piece_lit_len(p: PieceView) -> nat {
    match p {
        PieceView::Literal { text } => text.len(),
        PieceView::Argument { .. } => 0,
    }
}

/// The exact total length of the literal text among the pieces.
pub open spec fn lit_sum(ps: Seq<PieceView>) -> nat
    decreases ps.len(),
{
    if ps.len() == 0 {
        0
    } else {
        piece_lit_len(ps[0]) + lit_sum(ps.drop_first())
    }
}

pub proof fn lemma_lit_sum_concat(a: Seq<PieceView>, b: Seq<PieceView>)
    ensures
        lit_sum(a + b) == lit_sum(a) + lit_sum(b),
    decreases a.len(),
{
    if a.len() == 0 {
        assert(a + b =~= b);
    } else {
        assert((a + b).drop_first() =~= a.drop_first() + b);
        assert((a + b)[0] == a[0]);
        lemma_lit_sum_concat(a.drop_first(), b);
    }
}

/// The binding slots the pieces reference, in emission order.
pub open spec fn arg_indices(ps: Seq<PieceView>) -> Seq<nat>
    decreases ps.len(),
{
    if ps.len() == 0 {
        seq![]
    } else {
        let rest = arg_indices(ps.drop_first());
        match ps[0] {
            PieceView::Argument { index } => seq![index] + rest,
            PieceView::Literal { .. } => rest,
        }
    }
}

pub proof fn lemma_arg_indices_concat(a: Seq<PieceView>, b: Seq<PieceView>)
    ensures
        arg_indices(a + b) =~= arg_indices(a) + arg_indices(b),
    decreases a.len(),
{
    if a.len() == 0 {
        assert(a + b =~= b);
    } else {
        assert((a + b).drop_first() =~= a.drop_first() + b);
        assert((a + b)[0] == a[0]);
        lemma_arg_indices_concat(a.drop_first(), b);
    }
}

/// All supplied positional values satisfy the capability's honesty condition.
pub open spec fn pos_wf(pos: Seq<PosArgView>) -> bool {
    forall|i: int| 0 <= i < pos.len() ==> str_wf(#[trigger] pos[i].value)
}

/// All values in the caller's scope satisfy the capability's honesty condition.
pub open spec fn scope_wf(scope: Seq<NamedArgView>) -> bool {
    forall|i: int| 0 <= i < scope.len() ==> str_wf(#[trigger] scope[i].value)
}

/// A binding that already carries a value carries a well-formed one.
pub open spec fn value_wf(b: ArgExprView) -> bool {
    match b {
        ArgExprView::Value { value } => str_wf(value),
        ArgExprView::Named { .. } => true,
    }
}

/// An argument piece references a slot inside the binding list.
pub open spec fn piece_in_range(p: PieceView, n: nat) -> bool {
    match p {
        PieceView::Argument { index } => index < n,
        PieceView::Literal { .. } => true,
    }
}

pub open spec fn pieces_in_range(ps: Seq<PieceView>, n: nat) -> bool {
    forall|k: int| 0 <= k < ps.len() ==> piece_in_range(#[trigger] ps[k], n)
}

/// Structure of every successful parse: each placeholder occurrence gets its
/// own fresh binding slot, and the pieces reference the slots exactly once
/// each, in order — so an expression bound `k` times is emitted `k` times.
/// The literal text never exceeds the template, and every positionally
/// consumed value comes from the supplied list.
pub proof fn lemma_parse_rec_structure(s: Seq<char>, pos: Seq<PosArgView>, p: nat, nb: nat)
    requires
        spec_parse_rec(s, pos, p, nb) is Ok,
    ensures
        ({
            let o = spec_parse_rec(s, pos, p, nb)->Ok_0;
            &&& arg_indices(o.pieces) =~= Seq::new(o.binds.len() as nat, |k: int| (nb + k) as nat)
            &&& pieces_in_range(o.pieces, nb + o.binds.len())
            &&& lit_sum(o.pieces) <= s.len()
            &&& (pos_wf(pos) ==> forall|k: int|
                0 <= k < o.binds.len() ==> value_wf(#[trigger] o.binds[k]))
        }),
    decreases s.len(),
{
    reveal_with_fuel(arg_indices, 4);
    reveal_with_fuel(lit_sum, 4);
    lemma_find_char(s, '{');
    match find_char(s, '{') {
        None => {
            let o = spec_parse_rec(s, pos, p, nb)->Ok_0;
            assert(o.pieces =~= seq![PieceView::Literal { text: s }]);
            assert(o.pieces.drop_first() =~= Seq::<PieceView>::empty());
            assert(arg_indices(o.pieces) =~= Seq::new(0, |k: int| (nb + k) as nat));
        },
        Some(i) => {
            let after = s.skip(i as int + 1);
            lemma_find_char(after, '}');
            match find_char(after, '}') {
                None => {},
                Some(j) => {
                    let before = PieceView::Literal { text: s.take(i as int) };
                    let name = after.take(j as int);
                    let rest = after.skip(j as int + 1);
                    let head = seq![before, PieceView::Argument { index: nb }];
                    assert(head.drop_first() =~= seq![PieceView::Argument { index: nb }]);
                    assert(head.drop_first().drop_first() =~= Seq::<PieceView>::empty());
                    assert(arg_indices(head) =~= seq![nb]);
                    assert(lit_sum(head) == s.take(i as int).len());
                    let (p2, nb2): (nat, nat) = if name.len() == 0 {
                        (p + 1, nb + 1)
                    } else {
                        (p, nb + 1)
                    };
                    lemma_parse_rec_structure(rest, pos, p2, nb2);
                    let o2 = spec_parse_rec(rest, pos, p2, nb2)->Ok_0;
                    lemma_arg_indices_concat(head, o2.pieces);
                    lemma_lit_sum_concat(head, o2.pieces);
                    let o = spec_parse_rec(s, pos, p, nb)->Ok_0;
                    assert(o.pieces =~= head + o2.pieces);
                    assert(arg_indices(o.pieces) =~= Seq::new(
                        o.binds.len() as nat,
                        |k: int| (nb + k) as nat,
                    ));
                    assert(lit_sum(o.pieces) <= s.len());
                },
            }
        },
    }
}

/// The structure above, at the top of a parse: the pieces reference the slots
/// `0, 1, ..., n - 1` in exactly that order, one occurrence each.
pub proof fn lemma_parse_structure(tpl: Seq<char>, pos: Seq<PosArgView>)
    requires
        spec_parse(tpl, pos) is Ok,
    ensures
        ({
            let o = spec_parse(tpl, pos)->Ok_0;
            &&& arg_indices(o.pieces) =~= Seq::new(o.binds.len() as nat, |k: int| k as nat)
            &&& pieces_in_range(o.pieces, o.binds.len() as nat)
            &&& lit_sum(o.pieces) <= tpl.len()
            &&& (pos_wf(pos) ==> forall|k: int|
                0 <= k < o.binds.len() ==> value_wf(#[trigger] o.binds[k]))
        }),
{
    if tpl.len() == 0 {
        reveal_with_fuel(arg_indices, 2);
        let o = spec_parse(tpl, pos)->Ok_0;
        assert(arg_indices(o.pieces) =~= Seq::new(0, |k: int| k as nat));
    } else {
        lemma_parse_rec_structure(tpl, pos, 0, 0);
    }
}

/// Scans `s` for the first occurrence of `c` at or after `start`.
fn find_from(s: &str, start: usize, c: char) -> (r: Option<usize>)
    requires
        start as nat <= s@.len(),
    ensures
        match find_char(s@.skip(start as int), c) {
            Some(i) => r == Some((start + i) as usize) && start + i < s@.len(),
            None => r is None,
        },
{
    let len = s.unicode_len();
    let mut k = start;
    while k < len
        invariant
            start <= k <= len,
            len as nat == s@.len(),
            forall|j: int| start <= j < k ==> s@[j] != c,
        decreases len - k,
    {
        if s.get_char(k) == c {
            proof {
                let u = s@.skip(start as int);
                lemma_find_char(u, c);
                assert(forall|m: int| 0 <= m < u.len() ==> u[m] == s@[start + m]);
                assert(u[k - start] == c);
                match find_char(u, c) {
                    None => {
                        assert(false);
                    },
                    Some(i) => {
                        if (i as int) < k - start {
                            assert(u[i as int] == s@[start + i]);
                            assert(false);
                        }
                        if (i as int) > k - start {
                            assert(false);
                        }
                    },
                }
            }
            return Some(k);
        }
        k += 1;
    }
    proof {
        let u = s@.skip(start as int);
        lemma_find_char(u, c);
        assert(forall|m: int| 0 <= m < u.len() ==> u[m] == s@[start + m]);
        match find_char(u, c) {
            None => {},
            Some(i) => {
                assert(u[i as int] == s@[start + i]);
                assert(false);
            },
        }
    }
    None
}

/// A parsed template invocation: the ordered pieces, the binding list (one
/// fresh slot per placeholder occurrence, never deduplicated), and the exact
/// total length of the literal text.
pub struct Arguments {
    pub pieces: Vec<Piece>,
    pub bindings: Vec<ArgExpr>,
    pub str_base_len: usize,
}

impl View for Arguments {
    type V = ArgumentsView;

    open spec fn view(&self) -> ArgumentsView {
        ArgumentsView { pieces: piece_views(self.pieces@), binds: bind_views(self.bindings@) }
    }
}

impl Arguments {
    /// The literal-length accumulator equals the exact length of the
    /// concatenation of all literal pieces.
    pub open spec fn wf(&self) -> bool {
        self.str_base_len as nat == lit_sum(self@.pieces)
    }

    /// Parses a template against the positional expressions supplied at the
    /// call site. Returns exactly what the grammar `spec_parse` prescribes;
    /// in particular the same template and arguments always parse the same
    /// way, and a parse never consumes a placeholder twice.
    pub fn parse(template: &str, positional: &Vec<PosArg>) -> (r: Result<Arguments, CompileError>)
        ensures
            match spec_parse(template@, pos_views(positional@)) {
                Ok(o) => r is Ok && r->Ok_0@ == o && r->Ok_0.wf(),
                Err(e) => r == Err::<Arguments, CompileError>(e),
            },
    {
        let ghost pv = pos_views(positional@);
        let len = template.unicode_len();
        if len == 0 {
            let r = Arguments { pieces: Vec::new(), bindings: Vec::new(), str_base_len: 0 };
            proof {
                assert(piece_views(r.pieces@) =~= Seq::<PieceView>::empty());
                assert(bind_views(r.bindings@) =~= Seq::<ArgExprView>::empty());
                reveal_with_fuel(lit_sum, 1);
            }
            return Ok(r);
        }
        let mut pieces: Vec<Piece> = Vec::new();
        let mut bindings: Vec<ArgExpr> = Vec::new();
        let mut str_base_len: usize = 0;
        let mut cursor: usize = 0;
        let mut p: usize = 0;
        proof {
            assert(template@.skip(0) =~= template@);
            assert(piece_views(pieces@) =~= Seq::<PieceView>::empty());
            assert(bind_views(bindings@) =~= Seq::<ArgExprView>::empty());
            match spec_parse_rec(template@, pv, 0, 0) {
                Ok(o) => {
                    assert(ArgumentsView {
                        pieces: piece_views(pieces@) + o.pieces,
                        binds: bind_views(bindings@) + o.binds,
                    } =~= o);
                },
                Err(_) => {},
            }
            reveal_with_fuel(lit_sum, 1);
        }
        loop
            invariant
                cursor <= len,
                len as nat == template@.len(),
                p <= positional@.len(),
                pv == pos_views(positional@),
                str_base_len as nat == lit_sum(piece_views(pieces@)),
                str_base_len <= cursor,
                ({
                    let total = spec_parse(template@, pv);
                    match spec_parse_rec(
                        template@.skip(cursor as int),
                        pv,
                        p as nat,
                        bindings@.len() as nat,
                    ) {
                        Ok(o) => total == Ok::<ArgumentsView, CompileError>(
                            ArgumentsView {
                                pieces: piece_views(pieces@) + o.pieces,
                                binds: bind_views(bindings@) + o.binds,
                            },
                        ),
                        Err(e) => total == Err::<ArgumentsView, CompileError>(e),
                    }
                }),
            decreases len - cursor,
        {
            let ghost rem = template@.skip(cursor as int);
            let ghost nb = bindings@.len() as nat;
            match find_from(template, cursor, '{') {
                None => {
                    let ghost bp = piece_views(pieces@);
                    let lit = template.substring_char(cursor, len);
                    proof {
                        assert(rem =~= template@.subrange(cursor as int, len as int));
                        assert(lit@ =~= rem);
                    }
                    let text = String::from_str(lit);
                    pieces.push(Piece::Literal(text));
                    str_base_len = str_base_len + (len - cursor);
                    proof {
                        assert(piece_views(pieces@) =~= bp + seq![PieceView::Literal { text: rem }]);
                        lemma_lit_sum_concat(bp, seq![PieceView::Literal { text: rem }]);
                        reveal_with_fuel(lit_sum, 3);
                        let o = spec_parse_rec(rem, pv, p as nat, nb)->Ok_0;
                        assert(o.pieces =~= seq![PieceView::Literal { text: rem }]);
                        assert(bind_views(bindings@) + o.binds =~= bind_views(bindings@));
                    }
                    let r = Arguments { pieces, bindings, str_base_len };
                    proof {
                        assert(r@ =~= spec_parse(template@, pv)->Ok_0);
                    }
                    return Ok(r);
                },
                Some(b) => {
                    let ghost i = (b - cursor) as nat;
                    let lit = template.substring_char(cursor, b);
                    proof {
                        assert(rem.take(i as int) =~= template@.subrange(cursor as int, b as int));
                        assert(lit@ =~= rem.take(i as int));
                    }
                    match find_from(template, b + 1, '}') {
                        None => {
                            proof {
                                assert(rem.skip(i as int + 1) =~= template@.skip(b as int + 1));
                            }
                            return Err(CompileError::UnterminatedPlaceholder);
                        },
                        Some(m) => {
                            let ghost after = rem.skip(i as int + 1);
                            let ghost j = (m - (b + 1)) as nat;
                            proof {
                                assert(after =~= template@.skip(b as int + 1));
                                assert(after.take(j as int) =~= template@.subrange(
                                    b as int + 1,
                                    m as int,
                                ));
                                assert(after.skip(j as int + 1) =~= template@.skip(m as int + 1));
                            }
                            let name = template.substring_char(b + 1, m);
                            proof {
                                assert(name@ =~= after.take(j as int));
                            }
                            let ghost bp = piece_views(pieces@);
                            let ghost bb = bind_views(bindings@);
                            let ghost head_binds: Seq<ArgExprView>;
                            if name.is_empty() {
                                if p >= positional.len() {
                                    return Err(CompileError::MissingArgument);
                                }
                                let has_comma = positional[p].followed_by_comma;
                                if !has_comma && p + 1 < positional.len() {
                                    return Err(CompileError::MissingSeparator);
                                }
                                bindings.push(ArgExpr::Value(positional[p].value.clone()));
                                p = p + 1;
                                proof {
                                    head_binds = seq![
                                        ArgExprView::Value { value: pv[p as int - 1].value },
                                    ];
                                }
                            } else {
                                let name_text = String::from_str(name);
                                bindings.push(ArgExpr::Named(name_text));
                                proof {
                                    head_binds = seq![
                                        ArgExprView::Named { name: after.take(j as int) },
                                    ];
                                }
                            }
                            let text = String::from_str(lit);
                            pieces.push(Piece::Literal(text));
                            pieces.push(Piece::Argument(bindings.len() - 1));
                            str_base_len = str_base_len + (b - cursor);
                            cursor = m + 1;
                            proof {
                                let head = seq![
                                    PieceView::Literal { text: rem.take(i as int) },
                                    PieceView::Argument { index: nb },
                                ];
                                assert(piece_views(pieces@) =~= bp + head);
                                assert(bind_views(bindings@) =~= bb + head_binds);
                                lemma_lit_sum_concat(bp, head);
                                reveal_with_fuel(lit_sum, 3);
                                let rem1 = template@.skip(cursor as int);
                                assert(rem1 =~= after.skip(j as int + 1));
                                match spec_parse_rec(rem1, pv, p as nat, bindings@.len() as nat) {
                                    Ok(o1) => {
                                        let whole = spec_parse_rec(rem, pv,
                                            (if name.is_empty() { p - 1 } else { p as int }) as nat,
                                            nb)->Ok_0;
                                        assert(whole.pieces =~= head + o1.pieces);
                                        assert(whole.binds =~= head_binds + o1.binds);
                                        assert(bp + (head + o1.pieces) =~= (bp + head) + o1.pieces);
                                        assert(bb + (head_binds + o1.binds) =~= (bb + head_binds)
                                            + o1.binds);
                                    },
                                    Err(_) => {},
                                }
                            }
                        },
                    }
                },
            }
        }
    }
}

/// The first value in the scope whose name matches, if any. Inner scopes
/// stand earlier in the sequence, so the first match wins.
pub open spec fn spec_lookup(scope: Seq<NamedArgView>, name: Seq<char>) -> Option<StrView>
    decreases scope.len(),
{
    if scope.len() == 0 {
        None
    } else if scope[0].name == name {
        Some(scope[0].value)
    } else {
        spec_lookup(scope.drop_first(), name)
    }
}

/// A successful lookup in a well-formed scope yields a well-formed value.
pub proof fn lemma_lookup_wf(scope: Seq<NamedArgView>, name: Seq<char>)
    requires
        scope_wf(scope),
        spec_lookup(scope, name) is Some,
    ensures
        str_wf(spec_lookup(scope, name)->Some_0),
    decreases scope.len(),
{
    if scope.len() == 0 {
    } else if scope[0].name == name {
    } else {
        assert forall|i: int| 0 <= i < scope.drop_first().len() implies str_wf(
            #[trigger] scope.drop_first()[i].value,
        ) by {
            assert(scope.drop_first()[i] == scope[i + 1]);
        }
        lemma_lookup_wf(scope.drop_first(), name);
    }
}

/// Capability resolution: each binding slot becomes the value it references,
/// in slot order — a positional binding carries its value, a named binding is
/// looked up in the scope, and an unknown name is fatal.
pub open spec fn spec_resolve(binds: Seq<ArgExprView>, scope: Seq<NamedArgView>) -> Result<
    Seq<StrView>,
    CompileError,
>
    decreases binds.len(),
{
    if binds.len() == 0 {
        Ok(seq![])
    } else {
        let head = match binds[0] {
            ArgExprView::Value { value } => Some(value),
            ArgExprView::Named { name } => spec_lookup(scope, name),
        };
        match head {
            None => Err(CompileError::UnknownArgument),
            Some(v) => match spec_resolve(binds.drop_first(), scope) {
                Err(e) => Err(e),
                Ok(rest) => Ok(seq![v] + rest),
            },
        }
    }
}

/// Resolution yields one value per binding slot, and only well-formed values
/// when the supplied expressions and the scope are well formed.
pub proof fn lemma_resolve_wf(binds: Seq<ArgExprView>, scope: Seq<NamedArgView>)
    requires
        spec_resolve(binds, scope) is Ok,
    ensures
        ({
            let bs = spec_resolve(binds, scope)->Ok_0;
            &&& bs.len() == binds.len()
            &&& (scope_wf(scope) && (forall|k: int|
                0 <= k < binds.len() ==> value_wf(#[trigger] binds[k])) ==> forall|k: int|
                0 <= k < bs.len() ==> str_wf(#[trigger] bs[k]))
        }),
    decreases binds.len(),
{
    if binds.len() == 0 {
    } else {
        lemma_resolve_wf(binds.drop_first(), scope);
        let bs = spec_resolve(binds, scope)->Ok_0;
        let rest = spec_resolve(binds.drop_first(), scope)->Ok_0;
        if scope_wf(scope) && (forall|k: int| 0 <= k < binds.len() ==> value_wf(
            #[trigger] binds[k],
        )) {
            assert(value_wf(binds[0]));
            match binds[0] {
                ArgExprView::Value { value } => {},
                ArgExprView::Named { name } => {
                    lemma_lookup_wf(scope, name);
                },
            }
            assert forall|k: int| 0 <= k < binds.drop_first().len() implies value_wf(
                #[trigger] binds.drop_first()[k],
            ) by {
                assert(binds.drop_first()[k] == binds[k + 1]);
            }
            assert forall|k: int| 0 <= k < bs.len() implies str_wf(#[trigger] bs[k]) by {
                if k > 0 {
                    assert(bs[k] == rest[k - 1]);
                }
            }
        }
    }
}

/// Finds the value a name denotes in the caller's scope.
fn lookup(scope: &Vec<NamedArg>, name: &String) -> (r: Option<BoundedString>)
    ensures
        match spec_lookup(named_views(scope@), name@) {
            Some(v) => r is Some && r->Some_0@ == v,
            None => r is None,
        },
{
    let ghost sv = named_views(scope@);
    let n = scope.len();
    let mut k: usize = 0;
    proof {
        assert(sv.skip(0) =~= sv);
    }
    while k < n
        invariant
            k <= n,
            n == scope@.len(),
            sv == named_views(scope@),
            spec_lookup(sv, name@) == spec_lookup(sv.skip(k as int), name@),
        decreases n - k,
    {
        proof {
            assert(sv.skip(k as int)[0] == sv[k as int]);
            assert(sv.skip(k as int).drop_first() =~= sv.skip(k as int + 1));
        }
        if scope[k].name == *name {
            return Some(scope[k].value.clone());
        }
        k += 1;
    }
    proof {
        assert(sv.skip(n as int) =~= Seq::<NamedArgView>::empty());
    }
    None
}

impl Arguments {
    /// Resolves every binding slot to its value. Each occurrence keeps its
    /// own independent value, even when two slots name the same expression.
    pub fn resolve(&self, scope: &Vec<NamedArg>) -> (r: Result<Vec<BoundedString>, CompileError>)
        ensures
            match spec_resolve(self@.binds, named_views(scope@)) {
                Ok(bs) => r is Ok && str_views(r->Ok_0@) == bs,
                Err(e) => r == Err::<Vec<BoundedString>, CompileError>(e),
            },
    {
        let ghost bv = self@.binds;
        let ghost sv = named_views(scope@);
        let mut out: Vec<BoundedString> = Vec::new();
        let n = self.bindings.len();
        let mut k: usize = 0;
        proof {
            assert(bv.skip(0) =~= bv);
            assert(str_views(out@) =~= Seq::<StrView>::empty());
            match spec_resolve(bv, sv) {
                Ok(bs) => {
                    assert(str_views(out@) + bs =~= bs);
                },
                Err(_) => {},
            }
        }
        while k < n
            invariant
                k <= n,
                n == self.bindings@.len(),
                bv == bind_views(self.bindings@),
                sv == named_views(scope@),
                out@.len() == k,
                ({
                    match spec_resolve(bv.skip(k as int), sv) {
                        Ok(rest) => spec_resolve(bv, sv) == Ok::<Seq<StrView>, CompileError>(
                            str_views(out@) + rest,
                        ),
                        Err(e) => spec_resolve(bv, sv) == Err::<Seq<StrView>, CompileError>(e),
                    }
                }),
            decreases n - k,
        {
            proof {
                assert(bv.skip(k as int)[0] == bv[k as int]);
                assert(bv.skip(k as int).drop_first() =~= bv.skip(k as int + 1));
            }
            let ghost ov = str_views(out@);
            let v: BoundedString = match &self.bindings[k] {
                ArgExpr::Value(b) => b.clone(),
                ArgExpr::Named(name) => {
                    match lookup(scope, name) {
                        Some(b) => b,
                        None => {
                            return Err(CompileError::UnknownArgument);
                        },
                    }
                },
            };
            out.push(v);
            proof {
                assert(str_views(out@) =~= ov + seq![out@[out@.len() - 1]@]);
                match spec_resolve(bv.skip(k as int + 1), sv) {
                    Ok(rest) => {
                        assert(ov + (seq![out@[out@.len() - 1]@] + rest) =~= str_views(out@)
                            + rest);
                    },
                    Err(_) => {},
                }
            }
            k += 1;
        }
        proof {
            assert(bv.skip(n as int) =~= Seq::<ArgExprView>::empty());
            match spec_resolve(bv, sv) {
                Ok(bs) => {
                    assert(str_views(out@) + Seq::<StrView>::empty() =~= str_views(out@));
                },
                Err(_) => {},
            }
        }
        Ok(out)
    }
}

} // verus!
