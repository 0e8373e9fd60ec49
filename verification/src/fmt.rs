//! The structural assembler: consumes begin/end/scalar events, folds them
//! into a token tree on a working stack, and renders each completed
//! top-level value.

use vstd::prelude::*;

use crate::error::Error;
use crate::layout::{
    data_bytes, render, render_array_node, render_object_node, renderable, renderable_items,
    renderable_pairs,
};
use crate::options::Options;
use crate::token::Token;
use vstd::string::StringSliceAdditionalSpecFns;

verus! {

/// Whether `t` is an open begin marker.
pub open spec fn is_begin(t: Token) -> bool {
    t is BeginArray || t is BeginObject
}

/// The level recorded in a begin marker; zero for any other token.
pub open spec fn begin_level(t: Token) -> u32 {
    match t {
        Token::BeginArray(level) | Token::BeginObject(level) => level,
        _ => 0,
    }
}

/// The recorded levels of the begin markers in `s`, in stack order.
pub open spec fn marker_levels(s: Seq<Token>) -> Seq<u32>
    decreases s,
{
    if s.len() == 0 {
        Seq::empty()
    } else if is_begin(s.last()) {
        marker_levels(s.drop_last()).push(begin_level(s.last()))
    } else {
        marker_levels(s.drop_last())
    }
}

/// The index of the innermost (nearest to the top) begin marker in `s`,
/// or `-1` when the stack holds none.
pub open spec fn last_marker_index(s: Seq<Token>) -> int
    decreases s,
{
    if s.len() == 0 {
        -1
    } else if is_begin(s.last()) {
        s.len() - 1
    } else {
        last_marker_index(s.drop_last())
    }
}

/// The formatter: an event receiver that assembles a token tree and
/// renders every completed top-level value into the caller's byte sink.
///
/// Events arrive through `begin_array`, `end_array`, `begin_object`,
/// `end_object`, `scalar` and the string-building entry points.  Every
/// end event eagerly reduces its span into one compound token, so the
/// innermost begin marker found scanning the stack backwards is always
/// the matching one.  When a reduction or scalar leaves exactly one
/// completed token on the stack, that token is rendered and the stack is
/// cleared, ready for the next independent top-level value.
pub struct PrettyCompactFormatter {
    options: Options,
    token: Vec<Token>,
    level: u32,
}

impl PrettyCompactFormatter {
    /// The active configuration.
    pub closed spec fn spec_options(&self) -> Options {
        self.options
    }

    /// The working stack.
    pub closed spec fn spec_tokens(&self) -> Seq<Token> {
        self.token@
    }

    /// The number of currently open compound scopes.
    pub closed spec fn spec_level(&self) -> u32 {
        self.level
    }

    /// Well-formedness: the recorded levels of the open begin markers on
    /// the stack are exactly `0, 1, …, level − 1`, in stack order.
    pub closed spec fn wf(&self) -> bool {
        marker_levels(self.token@) == Seq::new(self.level as nat, |i: int| i as u32)
    }

    /// A formatter with the default rules: indent two spaces, line
    /// budget of 120 bytes.
    pub fn new() -> (r: PrettyCompactFormatter)
        ensures
            r.wf(),
            r.spec_tokens() == Seq::<Token>::empty(),
            r.spec_level() == 0,
            r.spec_options().spec_indent() == 2,
            r.spec_options().spec_max_len() == Some(120u32),
    {
        let r = PrettyCompactFormatter { options: Options::default(), token: Vec::new(), level: 0 };
        proof {
            assert(marker_levels(r.token@) =~= Seq::new(0, |i: int| i as u32));
        }
        r
    }

    /// A formatter without a line budget: plain pretty printing.
    pub fn no_rules() -> (r: PrettyCompactFormatter)
        ensures
            r.wf(),
            r.spec_tokens() == Seq::<Token>::empty(),
            r.spec_level() == 0,
            r.spec_options().spec_indent() == 2,
            r.spec_options().spec_max_len() is None,
    {
        let r = PrettyCompactFormatter {
            options: Options::no_rules(),
            token: Vec::new(),
            level: 0,
        };
        proof {
            assert(marker_levels(r.token@) =~= Seq::new(0, |i: int| i as u32));
        }
        r
    }

    /// Changes the indentation to the given value.
    pub fn with_indent(self, indent: u32) -> (r: Self)
        ensures
            r.spec_options().spec_indent() == indent,
            r.spec_options().spec_max_len() == self.spec_options().spec_max_len(),
            r.spec_tokens() == self.spec_tokens(),
            r.spec_level() == self.spec_level(),
            self.wf() ==> r.wf(),
    {
        let mut r = self;
        r.options.set_indent(indent);
        r
    }

    /// Changes the maximum line length to the given value.
    pub fn with_max_line_length(self, len: u32) -> (r: Self)
        ensures
            r.spec_options().spec_indent() == self.spec_options().spec_indent(),
            r.spec_options().spec_max_len() == Some(len),
            r.spec_tokens() == self.spec_tokens(),
            r.spec_level() == self.spec_level(),
            self.wf() ==> r.wf(),
    {
        let mut r = self;
        r.options.set_max_len(len);
        r
    }

    /// Renders the single completed token, if the stack holds exactly
    /// one: the token is written to `out` and the stack cleared.  With
    /// anything else on the stack this is a no-op.
    fn format_json(&mut self, out: &mut Vec<u8>) -> (r: Result<(), Error>)
        requires
            old(self).wf(),
        ensures
            final(self).wf(),
            final(self).spec_options() == old(self).spec_options(),
            final(self).spec_level() == old(self).spec_level(),
            old(out)@.is_prefix_of(final(out)@),
            ({
                let s = old(self).spec_tokens();
                let opts = old(self).spec_options();
                &&& (!(s.len() == 1 && !is_begin(s[0])) ==> r is Ok && final(self).spec_tokens()
                    == s && final(out)@ == old(out)@)
                &&& (s.len() == 1 && !is_begin(s[0]) && renderable(s[0]) ==> r is Ok
                    && final(self).spec_tokens() == Seq::<Token>::empty()
                    && final(out)@ == old(out)@ + render(s[0], opts, None))
                &&& (s.len() == 1 && !is_begin(s[0]) && !renderable(s[0]) ==> (
                r matches Err(e) && e matches Error::UnexpectedEvent { expected, found: _ }
                    && expected@ == "Data"@) && final(self).spec_tokens() == s)
            }),
    {
        let ghost s = self.token@;
        let render_it = self.token.len() == 1 && match &self.token[0] {
            Token::BeginArray(_) | Token::BeginObject(_) => false,
            _ => true,
        };
        if render_it {
            let opts = self.options;
            let res = {
                let t = &self.token[0];
                t.format(out, &opts, None)
            };
            match res {
                Ok(()) => {
                    self.token.clear();
                    proof {
                        assert(marker_levels(s) == Seq::new(
                            self.level as nat,
                            |i: int| i as u32,
                        ));
                        assert(marker_levels(s) =~= marker_levels(s.drop_last()));
                        assert(s.drop_last() =~= Seq::<Token>::empty());
                        assert(Seq::new(self.level as nat, |i: int| i as u32).len()
                            == self.level as nat);
                        assert(marker_levels(self.token@) =~= Seq::new(
                            self.level as nat,
                            |i: int| i as u32,
                        ));
                    }
                    Ok(())
                },
                Err(e) => Err(e),
            }
        } else {
            Ok(())
        }
    }

    /// Receives one pre-rendered scalar: pushes its bytes as a leaf and,
    /// at top level, immediately renders it.
    pub fn scalar(&mut self, data: Vec<u8>, out: &mut Vec<u8>)
        requires
            old(self).wf(),
        ensures
            final(self).wf(),
            final(self).spec_options() == old(self).spec_options(),
            final(self).spec_level() == old(self).spec_level(),
            old(self).spec_tokens().len() == 0 ==> final(self).spec_tokens() == Seq::<
                Token,
            >::empty() && final(out)@ == old(out)@ + data@,
            old(self).spec_tokens().len() > 0 ==> final(self).spec_tokens() == old(
                self,
            ).spec_tokens().push(Token::Data(data)) && final(out)@ == old(out)@,
    {
        let ghost s = self.token@;
        let ghost d = data@;
        self.token.push(Token::Data(data));
        proof {
            assert(self.token@.drop_last() =~= s);
            assert(marker_levels(self.token@) =~= marker_levels(s));
        }
        let r = self.format_json(out);
        proof {
            assert(r is Ok);
        }
    }

    /// Opens a string leaf: pushes a `Data` token holding the opening
    /// quote, ready to accumulate fragments.
    pub fn begin_string(&mut self)
        requires
            old(self).wf(),
        ensures
            final(self).wf(),
            final(self).spec_options() == old(self).spec_options(),
            final(self).spec_level() == old(self).spec_level(),
            final(self).spec_tokens().len() == old(self).spec_tokens().len() + 1,
            final(self).spec_tokens().drop_last() == old(self).spec_tokens(),
            (final(self).spec_tokens().last() matches Token::Data(v) && v@ == seq![34u8]),
    {
        let ghost s = self.token@;
        let mut v: Vec<u8> = Vec::new();
        v.push(34u8);
        proof {
            assert(v@ =~= seq![34u8]);
        }
        self.token.push(Token::Data(v));
        proof {
            assert(self.token@.drop_last() =~= s);
            assert(marker_levels(self.token@) =~= marker_levels(s));
        }
    }

    /// Appends one fragment to the string leaf on top of the stack.
    ///
    /// Fails with `EmptyTokenQueue` when the stack is empty and with an
    /// `UnexpectedEvent` when the top of the stack is not a `Data` leaf;
    /// in both cases the state is left unchanged.
    pub fn write_string_fragment(&mut self, fragment: &str) -> (r: Result<(), Error>)
        requires
            old(self).wf(),
        ensures
            final(self).wf(),
            final(self).spec_options() == old(self).spec_options(),
            final(self).spec_level() == old(self).spec_level(),
            ({
                let s = old(self).spec_tokens();
                &&& (s.len() == 0 ==> (r matches Err(e) && e is EmptyTokenQueue) && final(self).spec_tokens() == s)
                &&& (s.len() > 0 && !(s.last() is Data) ==> (
                r matches Err(e) && e matches Error::UnexpectedEvent { expected, found }
                    && expected@ == "Data"@ && found@ == s.last().spec_kind_name()) && final(self).spec_tokens() == s)
                &&& (s.len() > 0 && s.last() is Data ==> r is Ok && final(self).spec_tokens().len()
                    == s.len() && final(self).spec_tokens().drop_last() == s.drop_last() && (
                final(self).spec_tokens().last() matches Token::Data(v) && v@ == data_bytes(
                    s.last(),
                ) + fragment.spec_bytes()))
            }),
    {
        let ghost s = self.token@;
        if self.token.len() == 0 {
            return Err(Error::EmptyTokenQueue);
        }
        let t = self.token.pop().unwrap();
        match t {
            Token::Data(mut v) => {
                v.extend_from_slice(fragment.as_bytes());
                self.token.push(Token::Data(v));
                proof {
                    assert(self.token@.drop_last() =~= s.drop_last());
                    assert(marker_levels(self.token@) =~= marker_levels(s.drop_last()));
                    assert(marker_levels(s) =~= marker_levels(s.drop_last()));
                }
                Ok(())
            },
            other => {
                let e = Error::unexpected_event("Data", other.debug_info());
                self.token.push(other);
                proof {
                    assert(self.token@ =~= s);
                }
                Err(e)
            },
        }
    }

    /// Closes the string leaf on top of the stack: appends the closing
    /// quote and, at top level, immediately renders the finished scalar.
    ///
    /// Fails with `EmptyTokenQueue` when the stack is empty and with an
    /// `UnexpectedEvent` when the top of the stack is not a `Data` leaf;
    /// in both cases the state is left unchanged.
    pub fn end_string(&mut self, out: &mut Vec<u8>) -> (r: Result<(), Error>)
        requires
            old(self).wf(),
        ensures
            final(self).wf(),
            final(self).spec_options() == old(self).spec_options(),
            final(self).spec_level() == old(self).spec_level(),
            old(out)@.is_prefix_of(final(out)@),
            ({
                let s = old(self).spec_tokens();
                &&& (s.len() == 0 ==> (r matches Err(e) && e is EmptyTokenQueue) && final(self).spec_tokens() == s && final(out)@ == old(out)@)
                &&& (s.len() > 0 && !(s.last() is Data) ==> (
                r matches Err(e) && e matches Error::UnexpectedEvent { expected, found }
                    && expected@ == "Data"@ && found@ == s.last().spec_kind_name()) && final(self).spec_tokens() == s && final(out)@ == old(out)@)
                &&& (s.len() == 1 && s.last() is Data ==> r is Ok && final(self).spec_tokens()
                    == Seq::<Token>::empty() && final(out)@ == old(out)@ + data_bytes(s.last())
                    + seq![34u8])
                &&& (s.len() > 1 && s.last() is Data ==> r is Ok && final(self).spec_tokens().len()
                    == s.len() && final(self).spec_tokens().drop_last() == s.drop_last() && (
                final(self).spec_tokens().last() matches Token::Data(v) && v@ == data_bytes(
                    s.last(),
                ) + seq![34u8]) && final(out)@ == old(out)@)
            }),
    {
        let ghost s = self.token@;
        if self.token.len() == 0 {
            return Err(Error::EmptyTokenQueue);
        }
        let t = self.token.pop().unwrap();
        match t {
            Token::Data(mut v) => {
                v.push(34u8);
                proof {
                    assert(v@ =~= data_bytes(s.last()) + seq![34u8]);
                }
                self.token.push(Token::Data(v));
                proof {
                    assert(self.token@.drop_last() =~= s.drop_last());
                    assert(marker_levels(self.token@) =~= marker_levels(s.drop_last()));
                    assert(marker_levels(s) =~= marker_levels(s.drop_last()));
                }
                let r = self.format_json(out);
                proof {
                    if s.len() == 1 {
                        assert(self.token@ =~= Seq::<Token>::empty());
                    }
                }
                r
            },
            other => {
                let e = Error::unexpected_event("Data", other.debug_info());
                self.token.push(other);
                proof {
                    assert(self.token@ =~= s);
                }
                Err(e)
            },
        }
    }

    /// Opens an array: pushes a begin marker recording the current
    /// nesting depth and increments the depth.
    pub fn begin_array(&mut self)
        requires
            old(self).wf(),
            old(self).spec_level() < u32::MAX,
        ensures
            final(self).wf(),
            final(self).spec_options() == old(self).spec_options(),
            final(self).spec_level() == old(self).spec_level() + 1,
            final(self).spec_tokens() == old(self).spec_tokens().push(
                Token::BeginArray(old(self).spec_level()),
            ),
    {
        let ghost s = self.token@;
        let ghost lv = self.level;
        self.token.push(Token::BeginArray(self.level));
        self.level = self.level + 1;
        proof {
            assert(self.token@.drop_last() =~= s);
            assert(marker_levels(self.token@) =~= marker_levels(s).push(lv));
            assert(marker_levels(self.token@) =~= Seq::new(self.level as nat, |i: int| i as u32));
        }
    }

    /// Opens an object: pushes a begin marker recording the current
    /// nesting depth and increments the depth.
    pub fn begin_object(&mut self)
        requires
            old(self).wf(),
            old(self).spec_level() < u32::MAX,
        ensures
            final(self).wf(),
            final(self).spec_options() == old(self).spec_options(),
            final(self).spec_level() == old(self).spec_level() + 1,
            final(self).spec_tokens() == old(self).spec_tokens().push(
                Token::BeginObject(old(self).spec_level()),
            ),
    {
        let ghost s = self.token@;
        let ghost lv = self.level;
        self.token.push(Token::BeginObject(self.level));
        self.level = self.level + 1;
        proof {
            assert(self.token@.drop_last() =~= s);
            assert(marker_levels(self.token@) =~= marker_levels(s).push(lv));
            assert(marker_levels(self.token@) =~= Seq::new(self.level as nat, |i: int| i as u32));
        }
    }

    /// Closes the innermost open compound, which must be an array.
    ///
    /// Performs the eager reduction: all tokens above the innermost begin
    /// marker become the children of one `Array` node carrying the
    /// marker's recorded level.  When that node completes the top-level
    /// value it is rendered into `out` and the stack cleared.  Fails with
    /// `NoArrayStart` when no begin marker is open and with an
    /// `UnexpectedEvent` when the innermost open marker belongs to an
    /// object; the state is then left unchanged.
    #[verifier::rlimit(100)]
    pub fn end_array(&mut self, out: &mut Vec<u8>) -> (r: Result<(), Error>)
        requires
            old(self).wf(),
        ensures
            final(self).wf(),
            final(self).spec_options() == old(self).spec_options(),
            old(out)@.is_prefix_of(final(out)@),
            ({
                let s = old(self).spec_tokens();
                let opts = old(self).spec_options();
                let i = last_marker_index(s);
                &&& (i == -1 ==> (r matches Err(e) && e is NoArrayStart) && final(self).spec_tokens() == s && final(self).spec_level() == old(self).spec_level() && final(out)@ == old(out)@)
                &&& (i >= 0 && s[i] is BeginObject ==> (
                r matches Err(e) && e matches Error::UnexpectedEvent { expected, found }
                    && expected@ == "BeginArray"@ && found@ == "BeginObject"@) && final(self).spec_tokens() == s && final(self).spec_level() == old(self).spec_level() && final(out)@ == old(out)@)
                &&& (i >= 0 && s[i] is BeginArray ==> {
                    let lvl = begin_level(s[i]);
                    let kids = s.subrange(i + 1, s.len() as int);
                    &&& final(self).spec_level() == old(self).spec_level() - 1
                    &&& (i > 0 ==> r is Ok && final(out)@ == old(out)@ && final(self).spec_tokens().len() == i + 1 && final(self).spec_tokens().subrange(0, i)
                        == s.subrange(0, i) && (final(self).spec_tokens()[i]
                        matches Token::Array(l2, cs) && l2 == lvl && cs@ == kids))
                    &&& (i == 0 && renderable_items(kids) ==> r is Ok && final(self).spec_tokens()
                        == Seq::<Token>::empty() && final(out)@ == old(out)@ + render_array_node(
                        lvl,
                        kids,
                        opts,
                        None,
                    ))
                    &&& (i == 0 && !renderable_items(kids) ==> (
                    r matches Err(e) && e matches Error::UnexpectedEvent { expected, found: _ }
                        && expected@ == "Data"@) && final(self).spec_tokens().len() == 1 && (final(self).spec_tokens()[0] matches Token::Array(l2, cs) && l2 == lvl && cs@ == kids))
                })
            }),
    {
        let ghost s = self.token@;
        let idx = match self.find_last_token() {
            Some(i) => i,
            None => {
                return Err(Error::NoArrayStart);
            },
        };
        let lvl = match &self.token[idx] {
            Token::BeginArray(l) => *l,
            _ => {
                return Err(Error::unexpected_event("BeginArray", "BeginObject"));
            },
        };
        let n = self.token.len();
        proof {
            assert(idx < n);
            lemma_marker_levels_split(s, idx as int);
            let below = marker_levels(s.subrange(0, idx as int));
            assert(marker_levels(s) == below.push(begin_level(s[idx as int])));
            assert(marker_levels(s).len() == self.level as nat);
            assert(below.len() == (self.level - 1) as nat);
            assert(below.push(begin_level(s[idx as int]))[self.level as int - 1] == begin_level(
                s[idx as int],
            ));
            assert(Seq::new(self.level as nat, |i: int| i as u32)[self.level as int - 1] == (
            self.level - 1) as u32);
            assert(lvl == self.level - 1);
            assert forall|i: int| 0 <= i < below.len() implies below[i] == (i as u32) by {
                assert(below.push(begin_level(s[idx as int]))[i] == below[i]);
                assert(Seq::new(self.level as nat, |j: int| j as u32)[i] == i as u32);
            };
            assert(below =~= Seq::new((self.level - 1) as nat, |i: int| i as u32));
        }
        let children = self.token.split_off(idx + 1);
        let ghost kids = children@;
        let _marker = self.token.pop();
        self.token.push(Token::Array(lvl, children));
        self.level = self.level - 1;
        proof {
            assert(self.token@.drop_last() =~= s.subrange(0, idx as int));
            assert(marker_levels(self.token@) =~= marker_levels(s.subrange(0, idx as int)));
            assert(marker_levels(self.token@) =~= Seq::new(self.level as nat, |i: int| i as u32));
            assert(kids =~= s.subrange(idx as int + 1, s.len() as int));
        }
        let r = self.format_json(out);
        r
    }

    /// Closes the innermost open compound, which must be an object whose
    /// span holds complete key/value pairs.
    ///
    /// Performs the eager reduction: all tokens above the innermost begin
    /// marker become the children of one `Object` node carrying the
    /// marker's recorded level.  When that node completes the top-level
    /// value it is rendered into `out` and the stack cleared.  Fails with
    /// `NoObjectStart` when no begin marker is open, with an
    /// `UnexpectedEvent` naming `BeginObject` when the innermost open
    /// marker belongs to an array, and with an `UnexpectedEvent` naming
    /// `Data` when the span holds an odd number of tokens (a key without
    /// a value); the state is then left unchanged.
    #[verifier::rlimit(100)]
    pub fn end_object(&mut self, out: &mut Vec<u8>) -> (r: Result<(), Error>)
        requires
            old(self).wf(),
        ensures
            final(self).wf(),
            final(self).spec_options() == old(self).spec_options(),
            old(out)@.is_prefix_of(final(out)@),
            ({
                let s = old(self).spec_tokens();
                let opts = old(self).spec_options();
                let i = last_marker_index(s);
                &&& (i == -1 ==> (r matches Err(e) && e is NoObjectStart) && final(self).spec_tokens() == s && final(self).spec_level() == old(self).spec_level() && final(out)@ == old(out)@)
                &&& (i >= 0 && s[i] is BeginArray ==> (
                r matches Err(e) && e matches Error::UnexpectedEvent { expected, found }
                    && expected@ == "BeginObject"@ && found@ == "BeginArray"@) && final(self).spec_tokens() == s && final(self).spec_level() == old(self).spec_level() && final(out)@ == old(out)@)
                &&& (i >= 0 && s[i] is BeginObject && (s.len() - i - 1) % 2 == 1 ==> (
                r matches Err(e) && e matches Error::UnexpectedEvent { expected, found }
                    && expected@ == "Data"@ && found@ == "EndObject"@) && final(self).spec_tokens()
                    == s && final(self).spec_level() == old(self).spec_level() && final(out)@
                    == old(out)@)
                &&& (i >= 0 && s[i] is BeginObject && (s.len() - i - 1) % 2 == 0 ==> {
                    let lvl = begin_level(s[i]);
                    let kids = s.subrange(i + 1, s.len() as int);
                    &&& final(self).spec_level() == old(self).spec_level() - 1
                    &&& (i > 0 ==> r is Ok && final(out)@ == old(out)@ && final(self).spec_tokens().len() == i + 1 && final(self).spec_tokens().subrange(0, i)
                        == s.subrange(0, i) && (final(self).spec_tokens()[i]
                        matches Token::Object(l2, cs) && l2 == lvl && cs@ == kids))
                    &&& (i == 0 && renderable_pairs(kids) ==> r is Ok && final(self).spec_tokens()
                        == Seq::<Token>::empty() && final(out)@ == old(out)@ + render_object_node(
                        lvl,
                        kids,
                        opts,
                        None,
                    ))
                    &&& (i == 0 && !renderable_pairs(kids) ==> (
                    r matches Err(e) && e matches Error::UnexpectedEvent { expected, found: _ }
                        && expected@ == "Data"@) && final(self).spec_tokens().len() == 1 && (final(self).spec_tokens()[0] matches Token::Object(l2, cs) && l2 == lvl && cs@ == kids))
                })
            }),
    {
        let ghost s = self.token@;
        let idx = match self.find_last_token() {
            Some(i) => i,
            None => {
                return Err(Error::NoObjectStart);
            },
        };
        let lvl = match &self.token[idx] {
            Token::BeginObject(l) => *l,
            _ => {
                return Err(Error::unexpected_event("BeginObject", "BeginArray"));
            },
        };
        let n = self.token.len();
        if (n - idx - 1) % 2 == 1 {
            return Err(Error::unexpected_event("Data", "EndObject"));
        }
        proof {
            lemma_marker_levels_split(s, idx as int);
            let below = marker_levels(s.subrange(0, idx as int));
            assert(marker_levels(s) == below.push(begin_level(s[idx as int])));
            assert(marker_levels(s).len() == self.level as nat);
            assert(below.len() == (self.level - 1) as nat);
            assert(below.push(begin_level(s[idx as int]))[self.level as int - 1] == begin_level(
                s[idx as int],
            ));
            assert(Seq::new(self.level as nat, |i: int| i as u32)[self.level as int - 1] == (
            self.level - 1) as u32);
            assert(lvl == self.level - 1);
            assert forall|i: int| 0 <= i < below.len() implies below[i] == (i as u32) by {
                assert(below.push(begin_level(s[idx as int]))[i] == below[i]);
                assert(Seq::new(self.level as nat, |j: int| j as u32)[i] == i as u32);
            };
            assert(below =~= Seq::new((self.level - 1) as nat, |i: int| i as u32));
        }
        let children = self.token.split_off(idx + 1);
        let ghost kids = children@;
        let _marker = self.token.pop();
        self.token.push(Token::Object(lvl, children));
        self.level = self.level - 1;
        proof {
            assert(self.token@.drop_last() =~= s.subrange(0, idx as int));
            assert(marker_levels(self.token@) =~= marker_levels(s.subrange(0, idx as int)));
            assert(marker_levels(self.token@) =~= Seq::new(self.level as nat, |i: int| i as u32));
            assert(kids =~= s.subrange(idx as int + 1, s.len() as int));
        }
        let r = self.format_json(out);
        r
    }

    /// Scans the working stack from the top for the innermost begin
    /// marker of either kind.
    fn find_last_token(&self) -> (r: Option<usize>)
        ensures
            ({
                let s = self.spec_tokens();
                &&& (r matches Some(i) ==> 0 <= i < s.len() && is_begin(s[i as int]) && (forall|
                    j: int,
                |
                    i < j < s.len() ==> !is_begin(#[trigger] s[j])) && last_marker_index(s)
                    == i as int)
                &&& (r is None ==> last_marker_index(s) == -1)
            }),
    {
        let n = self.token.len();
        let mut i: usize = n;
        while i > 0
            invariant
                i <= n,
                n == self.token@.len(),
                forall|j: int| i <= j < n ==> !is_begin(#[trigger] self.token@[j]),
            decreases i,
        {
            i = i - 1;
            let found = match &self.token[i] {
                Token::BeginArray(_) | Token::BeginObject(_) => true,
                _ => false,
            };
            if found {
                proof {
                    lemma_last_marker_at(self.token@, i as int);
                }
                return Some(i);
            }
        }
        proof {
            lemma_last_marker_none(self.token@);
        }
        None
    }
}

impl Default for PrettyCompactFormatter {
    /// The same formatter as `new`: default rules.
    fn default() -> (r: Self)
        ensures
            r.wf(),
            r.spec_tokens() == Seq::<Token>::empty(),
            r.spec_level() == 0,
            r.spec_options().spec_indent() == 2,
            r.spec_options().spec_max_len() == Some(120u32),
    {
        Self::new()
    }
}

/// `last_marker_index` finds `i` when `s[i]` is a begin marker and only
/// non-markers follow it.
proof fn lemma_last_marker_at(s: Seq<Token>, i: int)
    requires
        0 <= i < s.len(),
        is_begin(s[i]),
        forall|j: int| i < j < s.len() ==> !is_begin(#[trigger] s[j]),
    ensures
        last_marker_index(s) == i,
    decreases s.len(),
{
    if i < s.len() - 1 {
        assert(!is_begin(s.last()));
        lemma_last_marker_at(s.drop_last(), i);
    }
}

/// `last_marker_index` is `-1` on a stack without begin markers.
proof fn lemma_last_marker_none(s: Seq<Token>)
    requires
        forall|j: int| 0 <= j < s.len() ==> !is_begin(#[trigger] s[j]),
    ensures
        last_marker_index(s) == -1,
    decreases s.len(),
{
    if s.len() > 0 {
        lemma_last_marker_none(s.drop_last());
    }
}

/// When `s[i]` is the last begin marker, the stack's marker levels are
/// those of the part below it, with the marker's own level on top.
proof fn lemma_marker_levels_split(s: Seq<Token>, i: int)
    requires
        0 <= i < s.len(),
        is_begin(s[i]),
        forall|j: int| i < j < s.len() ==> !is_begin(#[trigger] s[j]),
    ensures
        marker_levels(s) == marker_levels(s.subrange(0, i)).push(begin_level(s[i])),
    decreases s.len(),
{
    if i == s.len() - 1 {
        assert(s.drop_last() =~= s.subrange(0, i));
    } else {
        assert(!is_begin(s.last()));
        lemma_marker_levels_split(s.drop_last(), i);
        assert(s.drop_last().subrange(0, i) =~= s.subrange(0, i));
    }
}

} // verus!
