//! The laws the compiler keeps, stated over the same spec functions its
//! contracts use and proved once and for all: round-tripping of literal
//! templates, one rendering per placeholder occurrence, and the equivalence
//! of positional and named supply of the same value.

use vstd::prelude::*;

use crate::bounded::StrView;
use crate::emit::spec_aformat;
use crate::emit::spec_output;
use crate::template::ArgExprView;
use crate::template::NamedArgView;
use crate::template::PieceView;
use crate::template::PosArgView;
use crate::template::arg_indices;
use crate::template::find_char;
use crate::template::lemma_find_char;
use crate::template::lemma_parse_structure;
use crate::template::spec_lookup;
use crate::template::spec_parse;
use crate::template::spec_parse_rec;
use crate::template::spec_resolve;

verus! {

/// Round trip: a template with only literal text — no placeholder opener at
/// all — always compiles, whatever arguments are supplied, and its
/// producer-mode output is exactly the template text.
pub proof fn lemma_literal_round_trip(
    tpl: Seq<char>,
    pos: Seq<PosArgView>,
    scope: Seq<NamedArgView>,
)
    requires
        forall|i: int| 0 <= i < tpl.len() ==> tpl[i] != '{',
    ensures
        spec_aformat(tpl, pos, scope) is Ok,
        spec_aformat(tpl, pos, scope)->Ok_0.chars == tpl,
{
    reveal_with_fuel(spec_output, 3);
    reveal_with_fuel(spec_resolve, 2);
    lemma_find_char(tpl, '{');
    if tpl.len() == 0 {
        let o = spec_parse(tpl, pos)->Ok_0;
        assert(spec_output(o.pieces, Seq::<StrView>::empty()) =~= tpl);
    } else {
        match find_char(tpl, '{') {
            Some(i) => {
                assert(false);
            },
            None => {
                let o = spec_parse(tpl, pos)->Ok_0;
                assert(o.pieces == seq![PieceView::Literal { text: tpl }]);
                assert(o.pieces.drop_first() =~= Seq::<PieceView>::empty());
                let bs = spec_resolve(o.binds, scope)->Ok_0;
                assert(bs =~= Seq::<StrView>::empty());
                assert(spec_output(o.pieces, bs) =~= tpl);
            },
        }
    }
}

/// Exactly once per occurrence: every successful parse gives each
/// placeholder occurrence its own binding slot, and the pieces reference the
/// slots `0, 1, ..., n - 1` exactly once each, in slot order. An expression
/// supplied for `k` placeholders therefore stands in `k` independent slots
/// and is rendered `k` times, once per occurrence.
pub proof fn lemma_each_occurrence_rendered_once(tpl: Seq<char>, pos: Seq<PosArgView>)
    requires
        spec_parse(tpl, pos) is Ok,
    ensures
        ({
            let o = spec_parse(tpl, pos)->Ok_0;
            arg_indices(o.pieces) =~= Seq::new(o.binds.len() as nat, |k: int| k as nat)
        }),
{
    lemma_parse_structure(tpl, pos);
}

/// Positional/named equivalence: `"{}"` with a value supplied positionally
/// compiles to exactly the same result — same output text, same capacity
/// bound — as `"{name}"` with the same value bound to `name` in scope, for
/// any brace-free name, with or without a trailing separator.
pub proof fn lemma_positional_named_equivalent(name: Seq<char>, v: StrView, sep: bool)
    requires
        name.len() > 0,
        forall|i: int| 0 <= i < name.len() ==> name[i] != '{' && name[i] != '}',
    ensures
        ({
            let ptpl = seq!['{', '}'];
            let ntpl = seq!['{'] + name + seq!['}'];
            let pres = spec_aformat(
                ptpl,
                seq![PosArgView { value: v, followed_by_comma: sep }],
                seq![],
            );
            let nres = spec_aformat(ntpl, seq![], seq![NamedArgView { name: name, value: v }]);
            &&& pres is Ok
            &&& nres is Ok
            &&& pres->Ok_0 == nres->Ok_0
            &&& pres->Ok_0.chars == v.chars
            &&& pres->Ok_0.cap == v.cap
        }),
{
    reveal_with_fuel(spec_output, 4);
    reveal_with_fuel(spec_resolve, 2);
    reveal_with_fuel(spec_parse_rec, 3);
    reveal_with_fuel(crate::template::lit_sum, 4);
    reveal_with_fuel(crate::capacity::max_sum, 2);
    let ptpl = seq!['{', '}'];
    let ppos = seq![PosArgView { value: v, followed_by_comma: sep }];
    lemma_find_char(ptpl, '{');
    assert(ptpl[0] == '{');
    match find_char(ptpl, '{') {
        None => {
            assert(false);
        },
        Some(i) => {
            assert(i == 0);
            let after = ptpl.skip(1);
            assert(after =~= seq!['}']);
            lemma_find_char(after, '}');
            match find_char(after, '}') {
                None => {
                    assert(false);
                },
                Some(j) => {
                    assert(j == 0);
                    assert(after.take(0) =~= Seq::<char>::empty());
                    let rest = after.skip(1);
                    assert(rest =~= Seq::<char>::empty());
                    lemma_find_char(rest, '{');
                    let o = spec_parse_rec(ptpl, ppos, 0, 0)->Ok_0;
                    assert(o.binds =~= seq![ArgExprView::Value { value: v }]);
                    let bs = spec_resolve(o.binds, seq![])->Ok_0;
                    assert(o.binds.drop_first() =~= Seq::<ArgExprView>::empty());
                    assert(bs =~= seq![v]);
                    assert(o.pieces =~~= seq![
                        PieceView::Literal { text: Seq::<char>::empty() },
                        PieceView::Argument { index: 0 },
                        PieceView::Literal { text: Seq::<char>::empty() },
                    ]);
                    assert(o.pieces.drop_first() =~= seq![
                        PieceView::Argument { index: 0 },
                        PieceView::Literal { text: Seq::<char>::empty() },
                    ]);
                    assert(o.pieces.drop_first().drop_first() =~= seq![
                        PieceView::Literal { text: Seq::<char>::empty() },
                    ]);
                    assert(o.pieces.drop_first().drop_first().drop_first()
                        =~= Seq::<PieceView>::empty());
                    assert(spec_output(o.pieces, bs) =~= v.chars);
                },
            }
        },
    }
    let ntpl = seq!['{'] + name + seq!['}'];
    let scope = seq![NamedArgView { name: name, value: v }];
    lemma_find_char(ntpl, '{');
    assert(ntpl[0] == '{');
    match find_char(ntpl, '{') {
        None => {
            assert(false);
        },
        Some(i) => {
            assert(i == 0);
            let after = ntpl.skip(1);
            assert(after =~= name + seq!['}']);
            lemma_find_char(after, '}');
            assert(after[name.len() as int] == '}');
            match find_char(after, '}') {
                None => {
                    assert(false);
                },
                Some(j) => {
                    assert forall|k: int| 0 <= k < name.len() implies after[k] != '}' by {
                        assert(after[k] == name[k]);
                    }
                    if j < name.len() {
                        assert(after[j as int] == '}');
                        assert(false);
                    }
                    if j > name.len() {
                        assert(false);
                    }
                    assert(j == name.len());
                    assert(after.take(j as int) =~= name);
                    let rest = after.skip(j as int + 1);
                    assert(rest =~= Seq::<char>::empty());
                    lemma_find_char(rest, '{');
                    let o = spec_parse_rec(ntpl, seq![], 0, 0)->Ok_0;
                    assert(o.binds =~= seq![ArgExprView::Named { name: name }]);
                    assert(spec_lookup(scope, name) == Some(v));
                    let bs = spec_resolve(o.binds, scope)->Ok_0;
                    assert(o.binds.drop_first() =~= Seq::<ArgExprView>::empty());
                    assert(bs =~= seq![v]);
                    assert(o.pieces =~~= seq![
                        PieceView::Literal { text: Seq::<char>::empty() },
                        PieceView::Argument { index: 0 },
                        PieceView::Literal { text: Seq::<char>::empty() },
                    ]);
                    assert(o.pieces.drop_first() =~= seq![
                        PieceView::Argument { index: 0 },
                        PieceView::Literal { text: Seq::<char>::empty() },
                    ]);
                    assert(o.pieces.drop_first().drop_first() =~= seq![
                        PieceView::Literal { text: Seq::<char>::empty() },
                    ]);
                    assert(o.pieces.drop_first().drop_first().drop_first()
                        =~= Seq::<PieceView>::empty());
                    assert(spec_output(o.pieces, bs) =~= v.chars);
                },
            }
        },
    }
}

} // verus!
