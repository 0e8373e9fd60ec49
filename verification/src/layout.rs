//! The layout model: the exact width a token takes on one line, the
//! compaction decision, and the exact bytes the renderer produces.
//!
//! These specification functions are the contract of the layout engine in
//! `token`: `Token::length` computes `token_width` (clamped to `usize`),
//! `Token::can_compact` decides `can_compact_spec`, and `Token::format`
//! writes exactly `render`.

use vstd::prelude::*;

use crate::options::Options;
use crate::token::Token;

verus! {

/// The exact number of bytes `t` occupies when rendered fully compact.
///
/// A marker renders as nothing.  A leaf renders as its bytes.  An empty
/// compound renders as `[ ]` or `{ }` (three bytes).  A non-empty array
/// takes its brackets with their two inner spaces plus `", "` between
/// every pair of siblings; a non-empty object additionally takes `": "`
/// after every key, with `", "` only between pairs.
pub open spec fn token_width(t: Token) -> nat
    decreases t, 2int,
{
    match t {
        Token::BeginObject(_) | Token::EndObject | Token::BeginArray(_) | Token::EndArray => 0,
        Token::Data(v) => v@.len(),
        Token::Array(_, ts) => array_width(ts@),
        Token::Object(_, ts) => object_width(ts@),
    }
}

/// The one-line width of an array with children `ts`.
pub open spec fn array_width(ts: Seq<Token>) -> nat
    decreases ts, 1int,
{
    let n = ts.len();
    if n == 0 {
        3
    } else {
        (4 + width_sum(ts) + 2 * (n - 1)) as nat
    }
}

/// The one-line width of an object with children `ts`.
pub open spec fn object_width(ts: Seq<Token>) -> nat
    decreases ts, 1int,
{
    let n = ts.len();
    let pairs = n / 2;
    if n == 0 {
        3
    } else {
        (4 + width_sum(ts) + 2 * pairs + if pairs > 0 {
            2 * (pairs - 1)
        } else {
            0
        }) as nat
    }
}

/// The sum of the compact widths of a sequence of tokens.
pub open spec fn width_sum(ts: Seq<Token>) -> nat
    decreases ts, 0int,
{
    if ts.len() == 0 {
        0
    } else {
        width_sum(ts.drop_last()) + token_width(ts.last())
    }
}

/// A mathematical count, clamped to `usize::MAX`: what an exec sum built
/// from saturating additions reports of the true count `n`.
pub open spec fn clamp_sum(n: nat) -> nat {
    if n > usize::MAX {
        usize::MAX as nat
    } else {
        n
    }
}

/// `token_width`, clamped to the largest value an exec length can report.
pub open spec fn width_clamped(t: Token) -> nat {
    clamp_sum(token_width(t))
}

/// Whether `t` may be put on a single line.
///
/// Markers and leaves always may.  An array or object may only when a
/// budget is configured and the occupied prefix of the line plus the
/// token's compact width stays strictly below it.  The prefix is the
/// token's nominal indentation, `level * indent`, unless the caller
/// supplies the column already consumed on the current line
/// (`forced_indent`), as the key-fit probe of the object renderer does.
pub open spec fn can_compact_spec(t: Token, opts: Options, forced_indent: Option<int>) -> bool {
    match t {
        Token::Array(level, ts) => fits_budget(
            compact_prefix(level, opts, forced_indent),
            array_width(ts@),
            opts,
        ),
        Token::Object(level, ts) => fits_budget(
            compact_prefix(level, opts, forced_indent),
            object_width(ts@),
            opts,
        ),
        _ => true,
    }
}

/// The column a compound is probed at: the caller's column when one is
/// given, else the token's nominal indentation `level * indent`.
pub open spec fn compact_prefix(level: u32, opts: Options, forced_indent: Option<int>) -> int {
    match forced_indent {
        Some(p) => p,
        None => level * opts.spec_indent(),
    }
}

/// Whether a value of width `width` may start at column `prefix`: a
/// budget is configured and the line stays strictly below it.
pub open spec fn fits_budget(prefix: int, width: nat, opts: Options) -> bool {
    &&& opts.spec_max_len() is Some
    &&& prefix + width < opts.spec_max_len()->0
}

/// The layout the renderer chooses for `t` at entry: `true` is compact,
/// `false` is expanded.
///
/// An empty array or object is always compact — there is nothing to
/// expand onto separate lines.  Otherwise a forced choice wins, and
/// without one the token's own `can_compact_spec` at its nominal
/// indentation decides.
pub open spec fn chosen_compact(t: Token, opts: Options, forced: Option<bool>) -> bool {
    match t {
        Token::Array(level, ts) => chosen_layout(
            level,
            ts@.len(),
            array_width(ts@),
            opts,
            forced,
        ),
        Token::Object(level, ts) => chosen_layout(
            level,
            ts@.len(),
            object_width(ts@),
            opts,
            forced,
        ),
        _ => true,
    }
}

/// The layout chosen for a compound of `n` children and one-line width
/// `width` opened at `level`: an empty compound is always compact, a
/// forced choice wins, and otherwise the budget at the nominal
/// indentation decides.
pub open spec fn chosen_layout(
    level: u32,
    n: nat,
    width: nat,
    opts: Options,
    forced: Option<bool>,
) -> bool {
    if n == 0 {
        true
    } else {
        match forced {
            Some(b) => b,
            None => fits_budget(level * opts.spec_indent(), width, opts),
        }
    }
}

/// Whether rendering `t` succeeds: every key position of every object
/// (the even indices among its complete pairs) holds a `Data` leaf.
pub open spec fn renderable(t: Token) -> bool
    decreases t, 1int,
{
    match t {
        Token::Array(_, ts) => renderable_items(ts@),
        Token::Object(_, ts) => renderable_pairs(ts@),
        _ => true,
    }
}

/// Whether every child of an array renders.
pub open spec fn renderable_items(ts: Seq<Token>) -> bool
    decreases ts, 0int,
{
    forall|i: int| 0 <= i < ts.len() ==> renderable(#[trigger] ts[i])
}

/// Whether every complete pair of an object renders: each even index
/// holds a `Data` key and each odd index a renderable value.
pub open spec fn renderable_pairs(ts: Seq<Token>) -> bool
    decreases ts, 0int,
{
    forall|i: int|
        0 <= i < 2 * (ts.len() / 2) ==> if i % 2 == 0 {
            (#[trigger] ts[i]) is Data
        } else {
            renderable(ts[i])
        }
}

/// The children of a compound token; the empty sequence for any other.
pub open spec fn node_children(t: Token) -> Seq<Token> {
    match t {
        Token::Array(_, ts) | Token::Object(_, ts) => ts@,
        _ => Seq::empty(),
    }
}

/// The recorded nesting level of a compound token; zero for any other.
pub open spec fn node_level(t: Token) -> u32 {
    match t {
        Token::Array(level, _) | Token::Object(level, _) => level,
        _ => 0,
    }
}

/// An exec column argument, as the mathematical column it stands for.
pub open spec fn spec_opt_int(o: Option<usize>) -> Option<int> {
    match o {
        Some(p) => Some(p as int),
        None => None,
    }
}

/// `n` space bytes.
pub open spec fn spaces(n: nat) -> Seq<u8> {
    Seq::new(n, |i: int| 32u8)
}

/// The bytes of a `Data` leaf; the empty sequence for any other token.
pub open spec fn data_bytes(t: Token) -> Seq<u8> {
    match t {
        Token::Data(v) => v@,
        _ => Seq::empty(),
    }
}

/// The exact bytes `Token::format` writes for `t`.
///
/// Markers write nothing and a leaf writes its bytes.  A compound first
/// fixes its layout (`chosen_compact`), then renders `[ a, b ]`-style on
/// one line or one child per line, indented by `(level + 1) * indent`,
/// with the closing delimiter back at `level * indent`.  Object pairs
/// additionally run the key-fit heuristic, tracked by `render_pairs`.
pub open spec fn render(t: Token, opts: Options, forced: Option<bool>) -> Seq<u8>
    decreases t, 3int, 0int,
{
    match t {
        Token::BeginObject(_) | Token::EndObject | Token::BeginArray(_) | Token::EndArray => {
            Seq::empty()
        },
        Token::Data(v) => v@,
        Token::Array(level, ts) => render_array_node(level, ts@, opts, forced),
        Token::Object(level, ts) => render_object_node(level, ts@, opts, forced),
    }
}

/// The bytes of an array node opened at `level` with children `ts`.
pub open spec fn render_array_node(
    level: u32,
    ts: Seq<Token>,
    opts: Options,
    forced: Option<bool>,
) -> Seq<u8>
    decreases ts, 2int, 0int,
{
    let compact = chosen_layout(level, ts.len(), array_width(ts), opts, forced);
    let inner = ((level + 1) * opts.spec_indent()) as nat;
    let outer = (level * opts.spec_indent()) as nat;
    if compact {
        if ts.len() == 0 {
            seq![91u8, 32u8, 93u8]
        } else {
            seq![91u8, 32u8] + render_items_compact(ts, opts) + seq![32u8, 93u8]
        }
    } else {
        seq![91u8, 10u8] + render_items_expanded(ts, opts, inner) + seq![10u8] + spaces(outer)
            + seq![93u8]
    }
}

/// The bytes of an object node opened at `level` with children `ts`.
pub open spec fn render_object_node(
    level: u32,
    ts: Seq<Token>,
    opts: Options,
    forced: Option<bool>,
) -> Seq<u8>
    decreases ts, 2int, 0int,
{
    let compact = chosen_layout(level, ts.len(), object_width(ts), opts, forced);
    let inner = ((level + 1) * opts.spec_indent()) as nat;
    let outer = (level * opts.spec_indent()) as nat;
    let cur0: nat = if compact {
        2
    } else {
        outer
    };
    let body = render_pairs(ts, opts, compact, inner, cur0, 0);
    if compact {
        if ts.len() / 2 == 0 {
            seq![123u8, 32u8, 125u8]
        } else {
            seq![123u8, 32u8] + body + seq![32u8, 125u8]
        }
    } else {
        seq![123u8, 10u8] + body + seq![10u8] + spaces(outer) + seq![125u8]
    }
}

/// The children of a compact array, joined by `", "`, each rendered with
/// its own default layout decision.
pub open spec fn render_items_compact(ts: Seq<Token>, opts: Options) -> Seq<u8>
    decreases ts, 0int, 0int,
{
    if ts.len() == 0 {
        Seq::empty()
    } else if ts.len() == 1 {
        render(ts[0], opts, None)
    } else {
        render_items_compact(ts.drop_last(), opts) + seq![44u8, 32u8] + render(
            ts.last(),
            opts,
            None,
        )
    }
}

/// The children of an expanded array: each on its own line, indented by
/// `ind` spaces, with `",\n"` between siblings.
pub open spec fn render_items_expanded(ts: Seq<Token>, opts: Options, ind: nat) -> Seq<u8>
    decreases ts, 0int, 0int,
{
    if ts.len() == 0 {
        Seq::empty()
    } else if ts.len() == 1 {
        spaces(ind) + render(ts[0], opts, None)
    } else {
        render_items_expanded(ts.drop_last(), opts, ind) + seq![44u8, 10u8] + spaces(ind) + render(
            ts.last(),
            opts,
            None,
        )
    }
}

/// The separator written before pair `k`: nothing before the first pair,
/// `", "` on a compact line, `",\n"` otherwise.
pub open spec fn pair_sep(compact: bool, k: nat) -> Seq<u8> {
    if k == 0 {
        Seq::empty()
    } else if compact {
        seq![44u8, 32u8]
    } else {
        seq![44u8, 10u8]
    }
}

/// The column consumed on the current line once pair `k`'s key and its
/// `": "` are written, starting from the column `cur` left by the
/// previous pair.
///
/// The column grows by the separator on a compact line, resets to zero on
/// a new line before the `inner` indentation is added, and always grows
/// by the key bytes and the two bytes of `": "`.  On a compact line the
/// values written so far are deliberately not counted: the accounting
/// follows the renderer's running column variable.
pub open spec fn pair_step_col(ts: Seq<Token>, compact: bool, inner: nat, cur: nat, k: nat) -> nat {
    let cur1: nat = if k == 0 {
        cur
    } else if compact {
        (cur + 2) as nat
    } else {
        0
    };
    let cur2: nat = if compact {
        cur1
    } else {
        (cur1 + inner) as nat
    };
    (cur2 + data_bytes(ts[2 * k as int]).len() + 2) as nat
}

/// The separator, indentation when expanded, key bytes and `": "` of
/// object pair `k`.
pub open spec fn pair_prefix_bytes(ts: Seq<Token>, compact: bool, inner: nat, k: nat) -> Seq<u8> {
    let ind: Seq<u8> = if compact {
        Seq::empty()
    } else {
        spaces(inner)
    };
    pair_sep(compact, k) + ind + data_bytes(ts[2 * k as int]) + seq![58u8, 32u8]
}

/// The bytes written for object pair `k`: separator, indentation when
/// expanded, the key bytes, `": "`, and the value.
///
/// The value runs the key-fit probe: it is forced onto its key's line
/// when it fits at the column after the key (`pair_step_col`), even if
/// at its own nominal indentation it would not qualify, and is forced
/// to expand otherwise, so that a pair never overruns the budget merely
/// because the value's nominal indentation looks narrower than the real
/// column.
pub open spec fn pair_bytes(
    ts: Seq<Token>,
    opts: Options,
    compact: bool,
    inner: nat,
    cur: nat,
    k: nat,
) -> Seq<u8>
    decreases ts, 0int, 0int,
{
    if k < ts.len() / 2 {
        let value = ts[2 * k as int + 1];
        let cur3 = pair_step_col(ts, compact, inner, cur, k);
        let fits = can_compact_spec(value, opts, Some(cur3 as int));
        let valr = if fits {
            render(value, opts, Some(true))
        } else {
            render(value, opts, Some(false))
        };
        pair_prefix_bytes(ts, compact, inner, k) + valr
    } else {
        Seq::empty()
    }
}

/// The key/value pairs of an object from pair `k` on, given the column
/// accounting `cur` accumulated so far on the current line.
pub open spec fn render_pairs(
    ts: Seq<Token>,
    opts: Options,
    compact: bool,
    inner: nat,
    cur: nat,
    k: nat,
) -> Seq<u8>
    decreases ts, 1int, (ts.len() / 2 - k),
{
    if k >= ts.len() / 2 {
        Seq::empty()
    } else {
        pair_bytes(ts, opts, compact, inner, cur, k) + render_pairs(
            ts,
            opts,
            compact,
            inner,
            pair_step_col(ts, compact, inner, cur, k),
            k + 1,
        )
    }
}

/// **Width bound.**  Whenever the renderer chooses the compact layout
/// for a non-empty array or object without a forced override, the line
/// it starts — nominal indentation plus the node's one-line width —
/// stays strictly under the configured budget.  Empty compounds are
/// exempt: they render as `[ ]` or `{ }` regardless of the budget; and a
/// node forced onto a key's line is measured at that key's column
/// instead (see `lemma_keyfit_width_bound`).
pub proof fn lemma_compact_width_bound(t: Token, opts: Options)
    requires
        t is Array || t is Object,
        node_children(t).len() > 0,
        chosen_compact(t, opts, None),
    ensures
        opts.spec_max_len() is Some,
        node_level(t) * opts.spec_indent() + token_width(t) < opts.spec_max_len()->0,
{
}

/// **Width bound at a key's column.**  A value that the key-fit probe
/// accepts fits the budget measured from the column after its key.
pub proof fn lemma_keyfit_width_bound(t: Token, opts: Options, col: int)
    requires
        t is Array || t is Object,
        can_compact_spec(t, opts, Some(col)),
    ensures
        opts.spec_max_len() is Some,
        col + token_width(t) < opts.spec_max_len()->0,
{
}

/// **Empty array.**  An empty array renders as exactly `[ ]`, whatever
/// the options, the nesting depth, and any forced layout.
pub proof fn lemma_empty_array_render(level: u32, opts: Options, forced: Option<bool>)
    ensures
        render_array_node(level, Seq::empty(), opts, forced) == seq![91u8, 32u8, 93u8],
{
}

/// **Empty object.**  An empty object renders as exactly `{ }`, whatever
/// the options, the nesting depth, and any forced layout.
pub proof fn lemma_empty_object_render(level: u32, opts: Options, forced: Option<bool>)
    ensures
        render_object_node(level, Seq::empty(), opts, forced) == seq![123u8, 32u8, 125u8],
{
}

/// **Expansion fallback.**  With the budget disabled, no non-empty array
/// or object is ever laid out compact: not by its own decision, not by a
/// caller forcing expansion, and not through the key-fit probe, which
/// rejects every compound at every column.  Every non-empty compound
/// therefore renders in the expanded form, one child per line.
pub proof fn lemma_expansion_fallback(t: Token, opts: Options, forced: Option<bool>)
    requires
        opts.spec_max_len() is None,
        t is Array || t is Object,
        node_children(t).len() > 0,
        forced is None || forced == Some(false),
    ensures
        !chosen_compact(t, opts, forced),
        forall|col: int| !can_compact_spec(t, opts, Some(col)),
{
}

/// Structural equality of token trees: the same shape with the same
/// recorded levels and byte-for-byte equal leaf data, ignoring
/// incidental properties of the underlying buffers such as capacity.
pub open spec fn token_eqv(a: Token, b: Token) -> bool
    decreases a, 1int,
{
    match (a, b) {
        (Token::BeginObject(l1), Token::BeginObject(l2)) => l1 == l2,
        (Token::EndObject, Token::EndObject) => true,
        (Token::BeginArray(l1), Token::BeginArray(l2)) => l1 == l2,
        (Token::EndArray, Token::EndArray) => true,
        (Token::Data(v1), Token::Data(v2)) => v1@ == v2@,
        (Token::Array(l1, c1), Token::Array(l2, c2)) => l1 == l2 && items_eqv(c1@, c2@),
        (Token::Object(l1, c1), Token::Object(l2, c2)) => l1 == l2 && items_eqv(c1@, c2@),
        _ => false,
    }
}

/// Pointwise structural equality of two token sequences.
pub open spec fn items_eqv(a: Seq<Token>, b: Seq<Token>) -> bool
    decreases a, 0int,
{
    &&& a.len() == b.len()
    &&& forall|i: int| #![trigger a[i], b[i]] 0 <= i < a.len() ==> token_eqv(a[i], b[i])
}

/// Structurally equal tokens have equal one-line widths.
pub proof fn lemma_width_congruent(a: Token, b: Token)
    requires
        token_eqv(a, b),
    ensures
        token_width(a) == token_width(b),
    decreases a, 1int, 0int,
{
    match (a, b) {
        (Token::Array(_, c1), Token::Array(_, c2)) => {
            lemma_width_sum_congruent(c1@, c2@);
        },
        (Token::Object(_, c1), Token::Object(_, c2)) => {
            lemma_width_sum_congruent(c1@, c2@);
        },
        _ => {},
    }
}

/// Structurally equal token sequences have equal summed widths.
proof fn lemma_width_sum_congruent(a: Seq<Token>, b: Seq<Token>)
    requires
        items_eqv(a, b),
    ensures
        width_sum(a) == width_sum(b),
    decreases a, 0int, 0int,
{
    if a.len() > 0 {
        assert(items_eqv(a.drop_last(), b.drop_last()));
        lemma_width_sum_congruent(a.drop_last(), b.drop_last());
        lemma_width_congruent(a.last(), b.last());
    }
}

/// **Determinism.**  The rendered bytes depend only on the structure and
/// content of the tree and on the options: structurally equal trees
/// render byte-identically under the same options, however their
/// buffers were built.  Formatting the same tree twice with the same
/// options therefore yields byte-identical output.
pub proof fn lemma_render_congruent(a: Token, b: Token, opts: Options, forced: Option<bool>)
    requires
        token_eqv(a, b),
    ensures
        render(a, opts, forced) == render(b, opts, forced),
    decreases a, 3int, 0int,
{
    match (a, b) {
        (Token::Array(l1, c1), Token::Array(l2, c2)) => {
            lemma_width_sum_congruent(c1@, c2@);
            let compact = chosen_layout(l1, c1@.len(), array_width(c1@), opts, forced);
            if compact {
                lemma_items_compact_congruent(c1@, c2@, opts);
            } else {
                lemma_items_expanded_congruent(c1@, c2@, opts, ((l1 + 1) * opts.spec_indent()) as nat);
            }
        },
        (Token::Object(l1, c1), Token::Object(l2, c2)) => {
            lemma_width_sum_congruent(c1@, c2@);
            let compact = chosen_layout(l1, c1@.len(), object_width(c1@), opts, forced);
            let inner = ((l1 + 1) * opts.spec_indent()) as nat;
            let outer = (l1 * opts.spec_indent()) as nat;
            let cur0: nat = if compact {
                2
            } else {
                outer
            };
            lemma_render_pairs_congruent(c1@, c2@, opts, compact, inner, cur0, 0);
        },
        _ => {},
    }
}

/// Congruence of the compact item list.
proof fn lemma_items_compact_congruent(a: Seq<Token>, b: Seq<Token>, opts: Options)
    requires
        items_eqv(a, b),
    ensures
        render_items_compact(a, opts) == render_items_compact(b, opts),
    decreases a, 2int, 0int,
{
    if a.len() == 0 {
    } else if a.len() == 1 {
        lemma_render_congruent(a[0], b[0], opts, None);
    } else {
        assert(items_eqv(a.drop_last(), b.drop_last()));
        lemma_items_compact_congruent(a.drop_last(), b.drop_last(), opts);
        lemma_render_congruent(a.last(), b.last(), opts, None);
    }
}

/// Congruence of the expanded item list.
proof fn lemma_items_expanded_congruent(a: Seq<Token>, b: Seq<Token>, opts: Options, ind: nat)
    requires
        items_eqv(a, b),
    ensures
        render_items_expanded(a, opts, ind) == render_items_expanded(b, opts, ind),
    decreases a, 2int, 0int,
{
    if a.len() == 0 {
    } else if a.len() == 1 {
        lemma_render_congruent(a[0], b[0], opts, None);
    } else {
        assert(items_eqv(a.drop_last(), b.drop_last()));
        lemma_items_expanded_congruent(a.drop_last(), b.drop_last(), opts, ind);
        lemma_render_congruent(a.last(), b.last(), opts, None);
    }
}

/// Congruence of the pair renderer: equal keys give equal columns, so
/// the key-fit decisions agree as well.
proof fn lemma_render_pairs_congruent(
    a: Seq<Token>,
    b: Seq<Token>,
    opts: Options,
    compact: bool,
    inner: nat,
    cur: nat,
    k: nat,
)
    requires
        items_eqv(a, b),
    ensures
        render_pairs(a, opts, compact, inner, cur, k) == render_pairs(b, opts, compact, inner, cur, k),
    decreases a, 2int, (a.len() / 2 - k),
{
    if k < a.len() / 2 {
        assert(token_eqv(a[2 * k as int], b[2 * k as int]));
        assert(token_eqv(a[2 * k as int + 1], b[2 * k as int + 1]));
        assert(data_bytes(a[2 * k as int]) == data_bytes(b[2 * k as int]));
        let cur3 = pair_step_col(a, compact, inner, cur, k);
        assert(cur3 == pair_step_col(b, compact, inner, cur, k));
        lemma_width_congruent(a[2 * k as int + 1], b[2 * k as int + 1]);
        let fits = can_compact_spec(a[2 * k as int + 1], opts, Some(cur3 as int));
        assert(fits == can_compact_spec(b[2 * k as int + 1], opts, Some(cur3 as int)));
        if fits {
            lemma_render_congruent(a[2 * k as int + 1], b[2 * k as int + 1], opts, Some(true));
        } else {
            lemma_render_congruent(a[2 * k as int + 1], b[2 * k as int + 1], opts, Some(false));
        }
        lemma_render_pairs_congruent(a, b, opts, compact, inner, cur3, k + 1);
        assert(pair_prefix_bytes(a, compact, inner, k) == pair_prefix_bytes(b, compact, inner, k));
        assert(pair_bytes(a, opts, compact, inner, cur, k) == pair_bytes(
            b,
            opts,
            compact,
            inner,
            cur,
            k,
        ));
    }
}

} // verus!
