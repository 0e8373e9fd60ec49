//! The token tree: the data model that the assembler builds and the layout
//! engine renders.

use vstd::prelude::*;

use crate::error::Error;
use crate::layout::{
    can_compact_spec, chosen_compact, clamp_sum, node_children, pair_bytes, pair_prefix_bytes,
    pair_sep, pair_step_col, render, render_items_compact, render_items_expanded, render_pairs,
    renderable, spaces, spec_opt_int, width_clamped, width_sum,
};
use crate::options::Options;

verus! {

/// One node of the token tree.
///
/// `BeginObject`, `EndObject`, `BeginArray` and `EndArray` are markers that
/// live only on the assembler's working stack; a finished tree holds none
/// of them.  `Data` is a leaf of pre-rendered bytes.  `Array` and `Object`
/// are reduced compound nodes: the recorded `u32` is the nesting depth at
/// which the compound was opened, and the children of an `Object` are read
/// as alternating key/value pairs.
#[derive(Debug)]
pub enum Token {
    BeginObject(u32),
    EndObject,
    BeginArray(u32),
    EndArray,
    Data(Vec<u8>),
    Array(u32, Vec<Token>),
    Object(u32, Vec<Token>),
}

impl Token {
    /// The recorded level of a `BeginObject` marker, `None` for any other
    /// token.
    pub fn as_begin_object(&self) -> (r: Option<u32>)
        ensures
            r == (match self {
                Token::BeginObject(level) => Some(*level),
                _ => None::<u32>,
            }),
    {
        match self {
            Self::BeginObject(level) => Some(*level),
            _ => None,
        }
    }

    /// Whether this token is the `EndObject` marker.
    pub fn is_end_object(&self) -> (r: bool)
        ensures
            r == (self is EndObject),
    {
        matches!(self, Self::EndObject)
    }

    /// The recorded level of a `BeginArray` marker, `None` for any other
    /// token.
    pub fn as_begin_array(&self) -> (r: Option<u32>)
        ensures
            r == (match self {
                Token::BeginArray(level) => Some(*level),
                _ => None::<u32>,
            }),
    {
        match self {
            Self::BeginArray(level) => Some(*level),
            _ => None,
        }
    }

    /// Whether this token is the `EndArray` marker.
    pub fn is_end_array(&self) -> (r: bool)
        ensures
            r == (self is EndArray),
    {
        matches!(self, Self::EndArray)
    }

    /// The bytes of a `Data` leaf, `None` for any other token.
    pub fn as_data(&self) -> (r: Option<&[u8]>)
        ensures
            r is Some <==> self is Data,
            r matches Some(b) ==> b@ == crate::layout::data_bytes(*self),
    {
        match self {
            Self::Data(data) => Some(data.as_slice()),
            _ => None,
        }
    }

    /// The bytes of a `Data` leaf; any other token is an `UnexpectedEvent`
    /// error naming the found kind.
    pub fn as_data_err(&self) -> (r: Result<&[u8], Error>)
        ensures
            r is Ok <==> self is Data,
            r matches Ok(b) ==> b@ == crate::layout::data_bytes(*self),
            r matches Err(e) ==> e matches Error::UnexpectedEvent { expected, found }
                && expected@ == "Data"@ && found@ == self.spec_kind_name(),
    {
        match self.as_data() {
            Some(data) => Ok(data),
            None => Err(Error::unexpected_event("Data", self.debug_info())),
        }
    }

    /// Mutable access to the bytes of a `Data` leaf, `None` for any other
    /// token.
    pub fn as_data_mut(&mut self) -> (r: Option<&mut Vec<u8>>)
        ensures
            r is Some <==> (*old(self)) is Data,
            r matches Some(m) ==> m@ == crate::layout::data_bytes(*old(self)) && *final(self)
                == Token::Data(*final(m)),
            r is None ==> *final(self) == *old(self),
    {
        match self {
            Self::Data(data) => Some(data),
            _ => None,
        }
    }

    /// Mutable access to the bytes of a `Data` leaf; any other token is an
    /// `UnexpectedEvent` error naming the found kind.
    pub fn as_data_mut_err(&mut self) -> (r: Result<&mut Vec<u8>, Error>)
        ensures
            r is Ok <==> (*old(self)) is Data,
            r matches Ok(m) ==> m@ == crate::layout::data_bytes(*old(self)) && *final(self)
                == Token::Data(*final(m)),
            r matches Err(e) ==> *final(self) == *old(self) && (e
                matches Error::UnexpectedEvent { expected, found } && expected@ == "Data"@
                && found@ == old(self).spec_kind_name()),
    {
        if self.as_data().is_none() {
            let di = self.debug_info();
            return Err(Error::unexpected_event("Data", di));
        }
        match self.as_data_mut() {
            Some(data) => Ok(data),
            None => Err(Error::unexpected_event("Data", "Data")),
        }
    }

    /// The name of this token's kind, as used in error reports.
    pub closed spec fn spec_kind_name(&self) -> Seq<char> {
        match self {
            Token::BeginObject(_) => "BeginObject"@,
            Token::EndObject => "EndObject"@,
            Token::BeginArray(_) => "BeginArray"@,
            Token::EndArray => "EndArray"@,
            Token::Data(_) => "Data"@,
            Token::Array(_, _) => "Array"@,
            Token::Object(_, _) => "Object"@,
        }
    }

    /// The name of this token's kind, for error reports.
    pub(crate) fn debug_info(&self) -> (r: &'static str)
        ensures
            r@ == self.spec_kind_name(),
    {
        match self {
            Self::BeginObject(_) => "BeginObject",
            Self::EndObject => "EndObject",
            Self::BeginArray(_) => "BeginArray",
            Self::EndArray => "EndArray",
            Self::Data(_) => "Data",
            Self::Array(_, _) => "Array",
            Self::Object(_, _) => "Object",
        }
    }

    /// The width this token would occupy rendered on one line, saturating
    /// at `usize::MAX`.
    pub fn length(&self) -> (r: usize)
        ensures
            r == width_clamped(*self),
        decreases *self,
    {
        match self {
            Token::BeginObject(_) | Token::EndObject | Token::BeginArray(_) | Token::EndArray => 0,
            Token::Data(vec) => vec.len(),
            Token::Array(_, children) => {
                let n = children.len();
                let sum = Self::children_length(children);
                if n == 0 {
                    3
                } else {
                    // width = 4 + sum of child widths + 2 * (n - 1)
                    let seps = saturating_double(n - 1);
                    4usize.saturating_add(sum).saturating_add(seps)
                }
            },
            Token::Object(_, children) => {
                let n = children.len();
                let sum = Self::children_length(children);
                if n == 0 {
                    3
                } else {
                    // width = 4 + sum of child widths + 2 * pairs + 2 * (pairs - 1)
                    let pairs = n / 2;
                    let colons = saturating_double(pairs);
                    let seps = if pairs > 0 {
                        saturating_double(pairs - 1)
                    } else {
                        0
                    };
                    4usize.saturating_add(sum).saturating_add(colons).saturating_add(seps)
                }
            },
        }
    }

    /// Whether this token may be put on a single line: `can_compact_spec`
    /// at the caller's column, or at the token's nominal indentation.
    fn can_compact(&self, options: &Options, forced_indent: Option<usize>) -> (r: bool)
        ensures
            r == can_compact_spec(*self, *options, spec_opt_int(forced_indent)),
    {
        match self {
            Token::BeginObject(_) | Token::EndObject | Token::BeginArray(_) | Token::EndArray
            | Token::Data(_) => true,
            Token::Array(level, _) | Token::Object(level, _) => {
                match options.max_len() {
                    None => false,
                    Some(max) => {
                        let prefix: u64 = match forced_indent {
                            Some(p) => p as u64,
                            None => {
                                let lvl64 = *level as u64;
                                let ind64 = options.indent() as u64;
                                proof {
                                    assert(lvl64 * ind64 <= 0xffff_ffff_0000_0000u64) by (nonlinear_arith)
                                        requires
                                            lvl64 <= 0xffff_ffffu64,
                                            ind64 <= 0xffff_ffffu64,
                                    ;
                                }
                                lvl64 * ind64
                            },
                        };
                        let w = self.length();
                        (prefix as u128) + (w as u128) < (max as u128)
                    },
                }
            },
        }
    }

    /// Renders this token into `out`.
    ///
    /// On success the bytes appended to `out` are exactly
    /// `render(self, options, forced_compact)`.  Rendering succeeds if and
    /// only if every object key among the token's complete pairs is a
    /// `Data` leaf; on failure the bytes already rendered are left in
    /// `out` and the error names the offending token kind.
    pub fn format(&self, out: &mut Vec<u8>, options: &Options, forced_compact: Option<bool>) -> (r:
        Result<(), Error>)
        ensures
            r is Ok <==> renderable(*self),
            r is Ok ==> final(out)@ == old(out)@ + render(*self, *options, forced_compact),
            old(out)@.is_prefix_of(final(out)@),
            r matches Err(e) ==> e matches Error::UnexpectedEvent { expected, found: _ }
                && expected@ == "Data"@,
        decreases *self, 2int,
    {
        match self {
            Token::BeginObject(_) | Token::EndObject | Token::BeginArray(_) | Token::EndArray => {
                assert(out@ =~= old(out)@ + render(*self, *options, forced_compact));
                Ok(())
            },
            Token::Data(vec) => {
                out.extend_from_slice(vec.as_slice());
                Ok(())
            },
            Token::Array(_, _) => self.format_array(out, options, forced_compact),
            Token::Object(_, _) => self.format_object(out, options, forced_compact),
        }
    }

    /// The array half of `format`.
    #[verifier::loop_isolation(false)]
    #[verifier::rlimit(100)]
    fn format_array(&self, out: &mut Vec<u8>, options: &Options, forced_compact: Option<bool>) -> (
        r: Result<(), Error>)
        requires
            self is Array,
        ensures
            r is Ok <==> renderable(*self),
            r is Ok ==> final(out)@ == old(out)@ + render(*self, *options, forced_compact),
            old(out)@.is_prefix_of(final(out)@),
            r matches Err(e) ==> e matches Error::UnexpectedEvent { expected, found: _ }
                && expected@ == "Data"@,
        decreases *self, 0int,
    {
        let (level, children) = match self {
            Token::Array(level, children) => (level, children),
            _ => {
                assert(false);
                return Ok(());
            },
        };
        let n = children.len();
        let compact = if n == 0 {
            true
        } else {
            match forced_compact {
                Some(b) => b,
                None => self.can_compact(options, None),
            }
        };
        proof {
            assert(compact == chosen_compact(*self, *options, forced_compact));
        }
        let ghost base = out@;
        let ghost header: Seq<u8> = if compact {
            seq![91u8, 32u8]
        } else {
            seq![91u8, 10u8]
        };
        if compact {
            out.push(91u8);
            out.push(32u8);
        } else {
            out.push(91u8);
            out.push(10u8);
        }
        assert(out@ =~= base + header);
        let lvl64 = *level as u64;
        let ind64 = options.indent() as u64;
        proof {
            assert((lvl64 + 1) * ind64 <= 0xffff_ffff_ffff_0000u64) by (nonlinear_arith)
                requires
                    lvl64 <= 0xffff_ffffu64,
                    ind64 <= 0xffff_ffffu64,
            ;
            assert(lvl64 * ind64 <= (lvl64 + 1) * ind64) by (nonlinear_arith);
        }
        let spaces_next: u64 = (lvl64 + 1) * ind64;
        let spaces_outer: u64 = lvl64 * ind64;
        let mut i: usize = 0;
        while i < n
            invariant
                i <= n,
                out@ == base + header + if compact {
                    render_items_compact(children@.subrange(0, i as int), *options)
                } else {
                    render_items_expanded(
                        children@.subrange(0, i as int),
                        *options,
                        spaces_next as nat,
                    )
                },
                forall|j: int| 0 <= j < i ==> renderable(#[trigger] children@[j]),
            decreases n - i,
        {
            if i > 0 {
                if compact {
                    out.push(44u8);
                    out.push(32u8);
                } else {
                    out.push(44u8);
                    out.push(10u8);
                }
            }
            if !compact {
                write_spaces(out, spaces_next);
            }
            proof {
                assert(decreases_to!(*self => children@[i as int]));
            }
            let res = children[i].format(out, options, None);
            if let Err(e) = res {
                proof {
                    assert(!renderable(*self));
                    lemma_prefix_chain(old(out)@, base + header, out@);
                }
                return Err(e);
            }
            proof {
                let pre = children@.subrange(0, i as int);
                let post = children@.subrange(0, i as int + 1);
                assert(post.drop_last() =~= pre);
                assert(post.last() == children@[i as int]);
                if compact {
                    assert(out@ =~= base + header + render_items_compact(post, *options));
                } else {
                    assert(out@ =~= base + header + render_items_expanded(
                        post,
                        *options,
                        spaces_next as nat,
                    ));
                }
            }
            i = i + 1;
        }
        if compact && n == 0 {
            out.push(93u8);
        } else if compact {
            out.push(32u8);
            out.push(93u8);
        } else {
            out.push(10u8);
            write_spaces(out, spaces_outer);
            out.push(93u8);
        }
        proof {
            assert(children@.subrange(0, n as int) =~= children@);
            assert(spaces_outer as nat == ((*level) * options.spec_indent()) as nat);
            assert(spaces_next as nat == ((*level + 1) * options.spec_indent()) as nat);
            assert(renderable(*self));
            assert(out@ =~= base + render(*self, *options, forced_compact));
        }
        Ok(())
    }

    /// The object half of `format`: renders the key/value pairs with the
    /// key-fit heuristic.
    #[verifier::loop_isolation(false)]
    #[verifier::rlimit(100)]
    fn format_object(&self, out: &mut Vec<u8>, options: &Options, forced_compact: Option<bool>) -> (
        r: Result<(), Error>)
        requires
            self is Object,
        ensures
            r is Ok <==> renderable(*self),
            r is Ok ==> final(out)@ == old(out)@ + render(*self, *options, forced_compact),
            old(out)@.is_prefix_of(final(out)@),
            r matches Err(e) ==> e matches Error::UnexpectedEvent { expected, found: _ }
                && expected@ == "Data"@,
        decreases *self, 1int,
    {
        let (level, children) = match self {
            Token::Object(level, children) => (level, children),
            _ => {
                assert(false);
                return Ok(());
            },
        };
        let n = children.len();
        let compact = if n == 0 {
            true
        } else {
            match forced_compact {
                Some(b) => b,
                None => self.can_compact(options, None),
            }
        };
        proof {
            assert(compact == chosen_compact(*self, *options, forced_compact));
        }
        let ghost base = out@;
        let ghost header: Seq<u8> = if compact {
            seq![123u8, 32u8]
        } else {
            seq![123u8, 10u8]
        };
        let lvl64 = *level as u64;
        let ind64 = options.indent() as u64;
        proof {
            assert((lvl64 + 1) * ind64 <= 0xffff_ffff_ffff_0000u64) by (nonlinear_arith)
                requires
                    lvl64 <= 0xffff_ffffu64,
                    ind64 <= 0xffff_ffffu64,
            ;
            assert(lvl64 * ind64 <= (lvl64 + 1) * ind64) by (nonlinear_arith);
        }
        let spaces_next: u64 = (lvl64 + 1) * ind64;
        let spaces_outer: u64 = lvl64 * ind64;
        let mut cur: usize;
        if compact {
            out.push(123u8);
            out.push(32u8);
            cur = 2;
        } else {
            out.push(123u8);
            out.push(10u8);
            cur = clamp_u64_to_usize(spaces_outer);
        }
        assert(out@ =~= base + header);
        let ghost inner: nat = ((*level + 1) * options.spec_indent()) as nat;
        let ghost outer: nat = ((*level) * options.spec_indent()) as nat;
        proof {
            assert(spaces_outer as nat == outer);
            assert(spaces_next as nat == inner);
        }
        let ghost cur0: nat = if compact {
            2nat
        } else {
            outer
        };
        let ghost mut cur_true: nat = cur0;
        let ghost full = render_pairs(children@, *options, compact, inner, cur0, 0);
        let ghost mut done: Seq<u8> = Seq::empty();
        let pairs = n / 2;
        let mut k: usize = 0;
        while k < pairs
            invariant
                k <= pairs,
                cur == clamp_sum(cur_true),
                out@ == base + header + done,
                full == done + render_pairs(
                    children@,
                    *options,
                    compact,
                    inner,
                    cur_true,
                    k as nat,
                ),
                forall|j: int|
                    0 <= j < 2 * (k as int) ==> if j % 2 == 0 {
                        (#[trigger] children@[j]) is Data
                    } else {
                        renderable(children@[j])
                    },
            decreases pairs - k,
        {
            let ghost cur_entry: nat = cur_true;
            let res = self.format_pair(out, options, compact, spaces_next, cur, k, Ghost(cur_true));
            cur = match res {
                Ok(c) => c,
                Err(e) => {
                    proof {
                        assert(!renderable(*self));
                        lemma_prefix_chain(old(out)@, base + header + done, out@);
                    }
                    return Err(e);
                },
            };
            proof {
                done = done + pair_bytes(children@, *options, compact, inner, cur_entry, k as nat);
                cur_true = pair_step_col(children@, compact, inner, cur_entry, k as nat);
                assert(render_pairs(children@, *options, compact, inner, cur_entry, k as nat)
                    == pair_bytes(children@, *options, compact, inner, cur_entry, k as nat)
                    + render_pairs(children@, *options, compact, inner, cur_true, k as nat + 1));
                assert(full =~= done + render_pairs(
                    children@,
                    *options,
                    compact,
                    inner,
                    cur_true,
                    k as nat + 1,
                ));
                assert(out@ =~= base + header + done);
            }
            k = k + 1;
        }
        proof {
            assert(render_pairs(children@, *options, compact, inner, cur_true, pairs as nat)
                == Seq::<u8>::empty());
            assert(full =~= done);
        }
        if compact && pairs == 0 {
            out.push(125u8);
        } else if compact {
            out.push(32u8);
            out.push(125u8);
        } else {
            out.push(10u8);
            write_spaces(out, spaces_outer);
            out.push(125u8);
        }
        proof {
            assert(renderable(*self));
            assert(out@ =~= base + render(*self, *options, forced_compact));
        }
        Ok(())
    }

    /// Renders one object pair: the separator before it, the indentation
    /// when expanded, the key bytes with `": "`, and the value under the
    /// key-fit decision.  Returns the column left for the next pair.
    #[verifier::rlimit(100)]
    fn format_pair(
        &self,
        out: &mut Vec<u8>,
        options: &Options,
        compact: bool,
        spaces_next: u64,
        cur: usize,
        k: usize,
        Ghost(cur_true): Ghost<nat>,
    ) -> (res: Result<usize, Error>)
        requires
            self is Object,
            k < node_children(*self).len() / 2,
            cur == clamp_sum(cur_true),
        ensures
            res matches Ok(cur2) ==> {
                let ts = node_children(*self);
                &&& cur2 == clamp_sum(
                    pair_step_col(ts, compact, spaces_next as nat, cur_true, k as nat),
                )
                &&& final(out)@ == old(out)@ + pair_bytes(
                    ts,
                    *options,
                    compact,
                    spaces_next as nat,
                    cur_true,
                    k as nat,
                )
                &&& ts[2 * (k as int)] is Data
                &&& renderable(ts[2 * (k as int) + 1])
            },
            old(out)@.is_prefix_of(final(out)@),
            res matches Err(e) ==> !(node_children(*self)[2 * (k as int)] is Data && renderable(
                node_children(*self)[2 * (k as int) + 1],
            )) && (e matches Error::UnexpectedEvent { expected, found: _ } && expected@ == "Data"@),
        decreases *self, 0int,
    {
        let children = match self {
            Token::Object(_, children) => children,
            _ => {
                assert(false);
                return Err(Error::EmptyTokenQueue);
            },
        };
        let ghost ts = children@;
        assert(ts == node_children(*self));
        let ghost inner: nat = spaces_next as nat;
        let pres = self.format_pair_prefix(out, compact, spaces_next, cur, k, Ghost(cur_true));
        let cur2 = match pres {
            Ok(c) => c,
            Err(e) => {
                return Err(e);
            },
        };
        let ghost mid = out@;
        let n = children.len();
        assert(2 * (k as int) + 1 < n);
        let value = &children[2 * k + 1];
        let fits = value.can_compact(options, Some(cur2));
        proof {
            lemma_probe_clamped(
                ts[2 * (k as int) + 1],
                *options,
                pair_step_col(ts, compact, inner, cur_true, k as nat),
            );
            assert(decreases_to!(*self => ts[2 * (k as int) + 1]));
        }
        let vres = if fits {
            value.format(out, options, Some(true))
        } else {
            value.format(out, options, Some(false))
        };
        let ghost valr: Seq<u8> = if fits {
            render(ts[2 * (k as int) + 1], *options, Some(true))
        } else {
            render(ts[2 * (k as int) + 1], *options, Some(false))
        };
        match vres {
            Err(e) => {
                proof {
                    lemma_prefix_chain(old(out)@, mid, out@);
                }
                Err(e)
            },
            Ok(()) => {
                proof {
                    assert(out@ =~= old(out)@ + pair_bytes(
                        ts,
                        *options,
                        compact,
                        inner,
                        cur_true,
                        k as nat,
                    ));
                    lemma_prefix_chain(old(out)@, mid, out@);
                }
                Ok(cur2)
            },
        }
    }

    /// Writes the prefix of one object pair — separator, indentation when
    /// expanded, key bytes and `": "` — and returns the column after the
    /// key, clamped to `usize`.
    #[verifier::loop_isolation(false)]
    #[verifier::rlimit(100)]
    fn format_pair_prefix(
        &self,
        out: &mut Vec<u8>,
        compact: bool,
        spaces_next: u64,
        cur: usize,
        k: usize,
        Ghost(cur_true): Ghost<nat>,
    ) -> (res: Result<usize, Error>)
        requires
            self is Object,
            k < node_children(*self).len() / 2,
            cur == clamp_sum(cur_true),
        ensures
            res matches Ok(cur2) ==> {
                let ts = node_children(*self);
                &&& cur2 == clamp_sum(
                    pair_step_col(ts, compact, spaces_next as nat, cur_true, k as nat),
                )
                &&& final(out)@ == old(out)@ + pair_prefix_bytes(
                    ts,
                    compact,
                    spaces_next as nat,
                    k as nat,
                )
                &&& ts[2 * (k as int)] is Data
            },
            old(out)@.is_prefix_of(final(out)@),
            res matches Err(e) ==> !(node_children(*self)[2 * (k as int)] is Data) && (e
                matches Error::UnexpectedEvent { expected, found: _ } && expected@ == "Data"@),
    {
        let children = match self {
            Token::Object(_, children) => children,
            _ => {
                assert(false);
                return Err(Error::EmptyTokenQueue);
            },
        };
        let ghost ts = children@;
        assert(ts == node_children(*self));
        let ghost inner: nat = spaces_next as nat;
        let mut cur2 = cur;
        let ghost mut col: nat = cur_true;
        if k > 0 {
            if compact {
                out.push(44u8);
                out.push(32u8);
                cur2 = cur2.saturating_add(2);
                proof {
                    col = col + 2;
                }
            } else {
                out.push(44u8);
                out.push(10u8);
                cur2 = 0;
                proof {
                    col = 0;
                }
            }
        }
        assert(out@ =~= old(out)@ + pair_sep(compact, k as nat));
        if !compact {
            write_spaces(out, spaces_next);
            cur2 = cur2.saturating_add(clamp_u64_to_usize(spaces_next));
            proof {
                col = col + inner;
            }
        }
        let ghost ind: Seq<u8> = if compact {
            Seq::empty()
        } else {
            spaces(inner)
        };
        assert(out@ =~= old(out)@ + pair_sep(compact, k as nat) + ind);
        let n = children.len();
        assert(2 * (k as int) < n);
        let kres = children[2 * k].as_data_err();
        let key = match kres {
            Ok(kb) => kb,
            Err(e) => {
                proof {
                    lemma_prefix_chain(
                        old(out)@,
                        old(out)@ + pair_sep(compact, k as nat),
                        out@,
                    );
                }
                return Err(e);
            },
        };
        out.extend_from_slice(key);
        out.push(58u8);
        out.push(32u8);
        cur2 = cur2.saturating_add(key.len()).saturating_add(2);
        proof {
            col = col + key@.len() + 2;
            assert(col == pair_step_col(ts, compact, inner, cur_true, k as nat));
            assert(cur2 == clamp_sum(col));
            assert(out@ =~= old(out)@ + pair_prefix_bytes(ts, compact, inner, k as nat));
        }
        Ok(cur2)
    }

    /// The summed one-line widths of `children`, saturating at
    /// `usize::MAX`.
    fn children_length(children: &Vec<Token>) -> (r: usize)
        ensures
            r == clamp_sum(width_sum(children@)),
        decreases children@,
    {
        let mut sum: usize = 0;
        let mut i: usize = 0;
        while i < children.len()
            invariant
                i <= children@.len(),
                sum == clamp_sum(width_sum(children@.subrange(0, i as int))),
            decreases children@.len() - i,
        {
            proof {
                assert(decreases_to!(children@ => children@[i as int]));
            }
            let w = children[i].length();
            proof {
                assert(children@.subrange(0, i as int + 1).drop_last() =~= children@.subrange(
                    0,
                    i as int,
                ));
                assert(children@.subrange(0, i as int + 1).last() == children@[i as int]);
            }
            sum = sum.saturating_add(w);
            i = i + 1;
        }
        proof {
            assert(children@.subrange(0, children@.len() as int) =~= children@);
        }
        sum
    }
}

/// Doubles `n`, saturating at `usize::MAX`.
fn saturating_double(n: usize) -> (r: usize)
    ensures
        r == clamp_sum((2 * n) as nat),
{
    if n > usize::MAX / 2 {
        usize::MAX
    } else {
        n * 2
    }
}

/// Converts a 64-bit count to `usize`, saturating at `usize::MAX`.
fn clamp_u64_to_usize(x: u64) -> (r: usize)
    ensures
        r == clamp_sum(x as nat),
{
    if x > usize::MAX as u64 {
        usize::MAX
    } else {
        x as usize
    }
}

/// Appends `n` space bytes to `out`.
fn write_spaces(out: &mut Vec<u8>, n: u64)
    ensures
        final(out)@ == old(out)@ + spaces(n as nat),
{
    let mut i: u64 = 0;
    while i < n
        invariant
            i <= n,
            out@ == old(out)@ + spaces(i as nat),
        decreases n - i,
    {
        out.push(32u8);
        proof {
            assert(out@ =~= old(out)@ + spaces((i + 1) as nat));
        }
        i = i + 1;
    }
}

/// A clamped column probes the budget exactly as the true column does:
/// both agree whenever the true column fits in `usize`, and a column
/// beyond `usize::MAX` is already beyond any expressible budget.
proof fn lemma_probe_clamped(t: Token, opts: Options, cur: nat)
    ensures
        can_compact_spec(t, opts, Some(clamp_sum(cur) as int)) == can_compact_spec(
            t,
            opts,
            Some(cur as int),
        ),
{
}

/// Prefix order is transitive: what extends `mid` extends every prefix
/// of `mid`.
proof fn lemma_prefix_chain(a: Seq<u8>, mid: Seq<u8>, b: Seq<u8>)
    requires
        a.is_prefix_of(mid),
        mid.is_prefix_of(b),
    ensures
        a.is_prefix_of(b),
{
    assert(a =~= b.subrange(0, a.len() as int));
}

} // verus!
