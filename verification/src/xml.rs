//! A streaming XML field extractor.
//!
//! SOAP responses are scanned as raw bytes.  The scanner recognises start
//! tags, end tags and text runs; namespace prefixes are stripped from tag
//! names, so callers match on local names only.  The extractor walks the
//! token stream looking for a target element, optionally scoped below a
//! parent element, and collects text runs (or, in attribute mode, the
//! attributes of the first matching element).  Scanning stops at the first
//! malformed construct and whatever was collected so far is returned.
//!
//! Policy choices, stated once: text runs are captured verbatim, whitespace
//! included; runs that are all whitespace are skipped; character entities
//! are not decoded; attribute values are expected in double quotes with no
//! space around `=`, and must not hold `>`.

use vstd::prelude::*;

use crate::text::find_byte;
use crate::text::is_match_at;
use crate::text::is_ws;
use crate::text::has_non_ws;
use crate::text::non_ws;
use crate::text::spec_find;
use crate::text::lemma_find_props;
use crate::text::lemma_find_is_first;
use crate::text::sub_to_vec;

verus! {

pub const LT: u8 = 60u8;

pub const GT: u8 = 62u8;

pub const SLASH: u8 = 47u8;

pub const QMARK: u8 = 63u8;

pub const BANG: u8 = 33u8;

pub const COLON: u8 = 58u8;

pub const EQUALS: u8 = 61u8;

pub const DQUOTE: u8 = 34u8;

/// A byte that ends a tag name: whitespace or `/`.
pub open spec fn is_name_end(b: u8) -> bool {
    is_ws(b) || b == SLASH
}

/// First position `>= from` that ends a name, or the length if none does.
pub open spec fn spec_find_name_end(s: Seq<u8>, from: int) -> int
    decreases s.len() - from,
    when 0 <= from <= s.len()
{
    if from >= s.len() {
        s.len() as int
    } else if is_name_end(s[from]) {
        from
    } else {
        spec_find_name_end(s, from + 1)
    }
}

pub proof fn lemma_find_name_end_props(s: Seq<u8>, from: int)
    requires
        0 <= from <= s.len(),
    ensures
        from <= spec_find_name_end(s, from) <= s.len(),
        spec_find_name_end(s, from) < s.len() ==> is_name_end(s[spec_find_name_end(s, from)]),
        forall|j: int| from <= j < spec_find_name_end(s, from) ==> !is_name_end(s[j]),
    decreases s.len() - from,
{
    if from < s.len() && !is_name_end(s[from]) {
        lemma_find_name_end_props(s, from + 1);
    }
}

pub proof fn lemma_find_name_end_is_first(s: Seq<u8>, from: int, at: int)
    requires
        0 <= from <= at <= s.len(),
        forall|j: int| from <= j < at ==> !is_name_end(s[j]),
        at < s.len() ==> is_name_end(s[at]),
    ensures
        spec_find_name_end(s, from) == if at < s.len() {
            at
        } else {
            s.len() as int
        },
    decreases s.len() - from,
{
    if from < s.len() && !is_name_end(s[from]) {
        lemma_find_name_end_is_first(s, from + 1, at);
    }
}

/// Executable search matching `spec_find_name_end`.
pub fn find_name_end(s: &[u8], from: usize) -> (r: usize)
    requires
        from <= s@.len(),
    ensures
        r == spec_find_name_end(s@, from as int),
        from <= r <= s@.len(),
{
    let n = s.len();
    let mut i: usize = from;
    while i < n
        invariant
            from <= i <= n,
            n == s@.len(),
            forall|j: int| from <= j < i ==> !is_name_end(s@[j]),
        decreases n - i,
    {
        let b = s[i];
        if b == 32 || b == 9 || b == 10 || b == 13 || b == SLASH {
            proof {
                lemma_find_name_end_is_first(s@, from as int, i as int);
            }
            return i;
        }
        i += 1;
    }
    proof {
        lemma_find_name_end_is_first(s@, from as int, n as int);
    }
    n
}

/// First position `>= from` holding a non-whitespace byte.
pub open spec fn spec_skip_ws(s: Seq<u8>, from: int) -> int
    decreases s.len() - from,
    when 0 <= from <= s.len()
{
    if from >= s.len() {
        s.len() as int
    } else if is_ws(s[from]) {
        spec_skip_ws(s, from + 1)
    } else {
        from
    }
}

pub proof fn lemma_skip_ws_props(s: Seq<u8>, from: int)
    requires
        0 <= from <= s.len(),
    ensures
        from <= spec_skip_ws(s, from) <= s.len(),
        spec_skip_ws(s, from) < s.len() ==> !is_ws(s[spec_skip_ws(s, from)]),
        forall|j: int| from <= j < spec_skip_ws(s, from) ==> is_ws(s[j]),
    decreases s.len() - from,
{
    if from < s.len() && is_ws(s[from]) {
        lemma_skip_ws_props(s, from + 1);
    }
}

pub proof fn lemma_skip_ws_is_first(s: Seq<u8>, from: int, at: int)
    requires
        0 <= from <= at <= s.len(),
        forall|j: int| from <= j < at ==> is_ws(s[j]),
        at < s.len() ==> !is_ws(s[at]),
    ensures
        spec_skip_ws(s, from) == if at < s.len() {
            at
        } else {
            s.len() as int
        },
    decreases s.len() - from,
{
    if from < s.len() && is_ws(s[from]) {
        lemma_skip_ws_is_first(s, from + 1, at);
    }
}

/// Executable whitespace skip matching `spec_skip_ws`.
pub fn skip_ws(s: &[u8], from: usize) -> (r: usize)
    requires
        from <= s@.len(),
    ensures
        r == spec_skip_ws(s@, from as int),
        from <= r <= s@.len(),
{
    let n = s.len();
    let mut i: usize = from;
    while i < n
        invariant
            from <= i <= n,
            n == s@.len(),
            forall|j: int| from <= j < i ==> is_ws(s@[j]),
        decreases n - i,
    {
        let b = s[i];
        if !(b == 32 || b == 9 || b == 10 || b == 13) {
            proof {
                lemma_skip_ws_is_first(s@, from as int, i as int);
            }
            return i;
        }
        i += 1;
    }
    proof {
        lemma_skip_ws_is_first(s@, from as int, n as int);
    }
    n
}

/// Last position `< upto` holding a colon, or `-1` if there is none.
pub open spec fn spec_rfind_colon(s: Seq<u8>, upto: int) -> int
    decreases upto,
    when 0 <= upto <= s.len()
{
    if upto <= 0 {
        -1
    } else if s[upto - 1] == COLON {
        upto - 1
    } else {
        spec_rfind_colon(s, upto - 1)
    }
}

pub proof fn lemma_rfind_colon_props(s: Seq<u8>, upto: int)
    requires
        0 <= upto <= s.len(),
    ensures
        -1 <= spec_rfind_colon(s, upto) < upto,
        spec_rfind_colon(s, upto) >= 0 ==> s[spec_rfind_colon(s, upto)] == COLON,
        forall|j: int| spec_rfind_colon(s, upto) < j < upto ==> s[j] != COLON,
    decreases upto,
{
    if upto > 0 && s[upto - 1] != COLON {
        lemma_rfind_colon_props(s, upto - 1);
    }
}

/// The local part of a qualified name: everything after the last colon.
pub open spec fn spec_local(name: Seq<u8>) -> Seq<u8> {
    name.subrange(spec_rfind_colon(name, name.len() as int) + 1, name.len() as int)
}

/// A name without colons is its own local part.
pub proof fn lemma_local_no_colon(name: Seq<u8>)
    requires
        forall|j: int| 0 <= j < name.len() ==> name[j] != COLON,
    ensures
        spec_local(name) == name,
{
    lemma_rfind_colon_props(name, name.len() as int);
    assert(spec_rfind_colon(name, name.len() as int) == -1) by {
        if spec_rfind_colon(name, name.len() as int) >= 0 {
            assert(name[spec_rfind_colon(name, name.len() as int)] == COLON);
        }
    }
    assert(name.subrange(0, name.len() as int) =~= name);
}

/// Executable local-name extraction matching `spec_local`.
pub fn local_name(name: &[u8]) -> (r: Vec<u8>)
    ensures
        r@ == spec_local(name@),
{
    let n = name.len();
    let mut i: usize = n;
    while i > 0
        invariant
            i <= n,
            n == name@.len(),
            forall|j: int| i <= j < n ==> name@[j] != COLON,
        decreases i,
    {
        if name[i - 1] == COLON {
            proof {
                lemma_rfind_colon_at(name@, n as int, i - 1);
            }
            return sub_to_vec(name, i, n);
        }
        i -= 1;
    }
    proof {
        lemma_rfind_colon_props(name@, n as int);
        if spec_rfind_colon(name@, n as int) >= 0 {
            assert(name@[spec_rfind_colon(name@, n as int)] == COLON);
        }
    }
    sub_to_vec(name, 0, n)
}

proof fn lemma_rfind_colon_at(s: Seq<u8>, upto: int, at: int)
    requires
        0 <= at < upto <= s.len(),
        s[at] == COLON,
        forall|j: int| at < j < upto ==> s[j] != COLON,
    ensures
        spec_rfind_colon(s, upto) == at,
    decreases upto,
{
    if upto - 1 > at {
        lemma_rfind_colon_at(s, upto - 1, at);
    }
}

/// Attributes of a start tag, parsed from the tag's content `s` starting at
/// `from` (just past the tag name).  Each attribute is a `name="value"`
/// group; parsing stops quietly at the end, at a trailing `/`, or at the
/// first group that does not fit that shape.
pub open spec fn spec_parse_attrs(s: Seq<u8>, from: int) -> Seq<(Seq<u8>, Seq<u8>)>
    decreases s.len() - from,
    when 0 <= from <= s.len()
    via spec_parse_attrs_decreases
{
    let p = spec_skip_ws(s, from);
    if p >= s.len() || s[p] == SLASH {
        Seq::empty()
    } else {
        let eq = spec_find(s, p, EQUALS);
        if eq >= s.len() || eq + 1 >= s.len() || s[eq + 1] != DQUOTE {
            Seq::empty()
        } else {
            let q2 = spec_find(s, eq + 2, DQUOTE);
            if q2 >= s.len() {
                Seq::empty()
            } else {
                seq![(s.subrange(p, eq), s.subrange(eq + 2, q2))] + spec_parse_attrs(s, q2 + 1)
            }
        }
    }
}

#[via_fn]
proof fn spec_parse_attrs_decreases(s: Seq<u8>, from: int) {
    lemma_skip_ws_props(s, from);
    let p = spec_skip_ws(s, from);
    if p < s.len() && s[p] != SLASH {
        lemma_find_props(s, p, EQUALS);
        let eq = spec_find(s, p, EQUALS);
        if eq + 1 < s.len() && s[eq + 1] == DQUOTE {
            lemma_find_props(s, eq + 2, DQUOTE);
        }
    }
}

/// Executable attribute parsing matching `spec_parse_attrs`.
pub fn parse_attrs(s: &[u8], from: usize) -> (r: Vec<(Vec<u8>, Vec<u8>)>)
    requires
        from <= s@.len(),
    ensures
        r.deep_view() == spec_parse_attrs(s@, from as int),
{
    let n = s.len();
    let mut r: Vec<(Vec<u8>, Vec<u8>)> = Vec::new();
    let mut cur: usize = from;
    proof {
        assert(r.deep_view() + spec_parse_attrs(s@, from as int) =~~= spec_parse_attrs(
            s@,
            from as int,
        ));
    }
    loop
        invariant_except_break
            from <= cur <= n,
            n == s@.len(),
            spec_parse_attrs(s@, from as int) == r.deep_view() + spec_parse_attrs(s@, cur as int),
        ensures
            r.deep_view() == spec_parse_attrs(s@, from as int),
        decreases n - cur,
    {
        let p = skip_ws(s, cur);
        if p >= n || s[p] == SLASH {
            proof {
                assert(spec_parse_attrs(s@, cur as int) =~~= Seq::<(Seq<u8>, Seq<u8>)>::empty());
                assert(r.deep_view() + spec_parse_attrs(s@, cur as int) =~~= r.deep_view());
            }
            break;
        }
        let eq = find_byte(s, p, EQUALS);
        if eq >= n || eq + 1 >= n || s[eq + 1] != DQUOTE {
            proof {
                assert(spec_parse_attrs(s@, cur as int) =~~= Seq::<(Seq<u8>, Seq<u8>)>::empty());
                assert(r.deep_view() + spec_parse_attrs(s@, cur as int) =~~= r.deep_view());
            }
            break;
        }
        let q2 = find_byte(s, eq + 2, DQUOTE);
        if q2 >= n {
            proof {
                assert(spec_parse_attrs(s@, cur as int) =~~= Seq::<(Seq<u8>, Seq<u8>)>::empty());
                assert(r.deep_view() + spec_parse_attrs(s@, cur as int) =~~= r.deep_view());
            }
            break;
        }
        let name = sub_to_vec(s, p, eq);
        let value = sub_to_vec(s, eq + 2, q2);
        let ghost old_r = r.deep_view();
        r.push((name, value));
        proof {
            assert(r.deep_view() =~~= old_r + seq![(name@, value@)]);
            assert(spec_parse_attrs(s@, cur as int) == seq![(name@, value@)] + spec_parse_attrs(
                s@,
                q2 + 1,
            ));
            assert(r.deep_view() + spec_parse_attrs(s@, q2 + 1) =~~= old_r + spec_parse_attrs(
                s@,
                cur as int,
            ));
        }
        cur = q2 + 1;
    }
    r
}

/// The scanner's view of one XML event.
pub enum XmlToken {
    Start { name: Seq<u8>, attrs: Seq<(Seq<u8>, Seq<u8>)>, self_closing: bool },
    End { name: Seq<u8> },
    Text { body: Seq<u8> },
    Skip,
}

/// The token beginning at `pos`, with the position just past it, or `None`
/// at the end of input or at a malformed construct (a `<` with no `>`, or
/// an empty `<>`).
pub open spec fn spec_next_token(s: Seq<u8>, pos: int) -> Option<(XmlToken, int)> {
    if pos < 0 || pos >= s.len() {
        None
    } else if s[pos] == LT {
        let close = spec_find(s, pos + 1, GT);
        if close >= s.len() {
            None
        } else {
            let inner = s.subrange(pos + 1, close);
            let next = close + 1;
            if inner.len() == 0 {
                None
            } else if inner[0] == QMARK || inner[0] == BANG {
                Some((XmlToken::Skip, next))
            } else if inner[0] == SLASH {
                let raw = inner.subrange(1, inner.len() as int);
                let ne = spec_find_name_end(raw, 0);
                Some((XmlToken::End { name: spec_local(raw.subrange(0, ne)) }, next))
            } else {
                let self_closing = inner[inner.len() - 1] == SLASH;
                let content = if self_closing {
                    inner.subrange(0, inner.len() - 1)
                } else {
                    inner
                };
                let ne = spec_find_name_end(content, 0);
                Some(
                    (
                        XmlToken::Start {
                            name: spec_local(content.subrange(0, ne)),
                            attrs: spec_parse_attrs(content, ne),
                            self_closing,
                        },
                        next,
                    ),
                )
            }
        }
    } else {
        let lt = spec_find(s, pos, LT);
        Some((XmlToken::Text { body: s.subrange(pos, lt) }, lt))
    }
}

/// Every token takes at least one byte, so scanning terminates.
pub proof fn lemma_next_token_advances(s: Seq<u8>, pos: int)
    requires
        0 <= pos <= s.len(),
    ensures
        spec_next_token(s, pos) matches Some(tp) ==> pos < tp.1 <= s.len(),
{
    if pos < s.len() {
        if s[pos] == LT {
            lemma_find_props(s, pos + 1, GT);
        } else {
            lemma_find_props(s, pos, LT);
        }
    }
}

/// The executable counterpart of `XmlToken`.
pub enum Token {
    Start { name: Vec<u8>, attrs: Vec<(Vec<u8>, Vec<u8>)>, self_closing: bool },
    End { name: Vec<u8> },
    Text { body: Vec<u8> },
    Skip,
}

impl Token {
    pub open spec fn view(&self) -> XmlToken {
        match self {
            Token::Start { name, attrs, self_closing } => XmlToken::Start {
                name: name@,
                attrs: attrs.deep_view(),
                self_closing: *self_closing,
            },
            Token::End { name } => XmlToken::End { name: name@ },
            Token::Text { body } => XmlToken::Text { body: body@ },
            Token::Skip => XmlToken::Skip,
        }
    }
}

/// Scan the token beginning at `pos`, matching `spec_next_token`.
pub fn next_token(s: &[u8], pos: usize) -> (r: Option<(Token, usize)>)
    requires
        pos <= s@.len(),
    ensures
        match r {
            Option::None => spec_next_token(s@, pos as int) is None,
            Option::Some((t, p2)) => {
                &&& spec_next_token(s@, pos as int) == Some((t.view(), p2 as int))
                &&& pos < p2 <= s@.len()
            },
        },
{
    let n = s.len();
    if pos >= n {
        return None;
    }
    if s[pos] == LT {
        let close = find_byte(s, pos + 1, GT);
        if close >= n {
            return None;
        }
        let ghost inner = s@.subrange(pos + 1, close as int);
        let next = close + 1;
        if close == pos + 1 {
            assert(inner.len() == 0);
            return None;
        }
        assert(inner.len() > 0);
        assert(inner[0] == s@[pos + 1]);
        let first = s[pos + 1];
        if first == QMARK || first == BANG {
            return Some((Token::Skip, next));
        }
        if first == SLASH {
            let raw = sub_to_vec(s, pos + 2, close);
            proof {
                assert(raw@ =~= inner.subrange(1, inner.len() as int));
            }
            let ne = find_name_end(raw.as_slice(), 0);
            let name = local_name(sub_to_vec(raw.as_slice(), 0, ne).as_slice());
            return Some((Token::End { name }, next));
        }
        let self_closing = s[close - 1] == SLASH;
        assert(self_closing == (inner[inner.len() - 1] == SLASH));
        let content_end = if self_closing {
            close - 1
        } else {
            close
        };
        let content = sub_to_vec(s, pos + 1, content_end);
        proof {
            if self_closing {
                assert(content@ =~= inner.subrange(0, inner.len() - 1));
            } else {
                assert(content@ =~= inner);
            }
        }
        let ne = find_name_end(content.as_slice(), 0);
        let name = local_name(sub_to_vec(content.as_slice(), 0, ne).as_slice());
        let attrs = parse_attrs(content.as_slice(), ne);
        return Some((Token::Start { name, attrs, self_closing }, next));
    }
    let lt = find_byte(s, pos, LT);
    let body = sub_to_vec(s, pos, lt);
    proof {
        lemma_find_props(s@, pos as int, LT);
    }
    Some((Token::Text { body }, lt))
}

/// One attribute rendered as `name=value`.
pub open spec fn spec_attr_pair(a: (Seq<u8>, Seq<u8>)) -> Seq<u8> {
    a.0 + seq![EQUALS] + a.1
}

/// The extractor, defined over the token stream of `s` from `pos`.
///
/// `pf` records that the parent scope has been entered (sticky for the rest
/// of the document), `ef` that scanning is inside an occurrence of the
/// target element.  In attribute mode the first matching start tag that
/// carries attributes ends the scan with the rendered attributes; otherwise
/// non-whitespace text runs inside the target are collected, just the first
/// one when `single` is set.
pub open spec fn spec_extract(
    s: Seq<u8>,
    pos: int,
    target: Seq<u8>,
    parent: Option<Seq<u8>>,
    pf: bool,
    ef: bool,
    single: bool,
    attrs_mode: bool,
) -> Seq<Seq<u8>>
    decreases s.len() - pos,
    when 0 <= pos <= s.len()
    via spec_extract_decreases
{
    match spec_next_token(s, pos) {
        None => Seq::empty(),
        Some((tok, p2)) => match tok {
            XmlToken::Skip => spec_extract(s, p2, target, parent, pf, ef, single, attrs_mode),
            XmlToken::Start { name, attrs, self_closing } => {
                let pf2 = pf || (parent matches Some(pn) && name == pn);
                let ef2 = ef || (pf2 && name == target);
                if attrs_mode && ef2 && attrs.len() > 0 {
                    attrs.map_values(|a: (Seq<u8>, Seq<u8>)| spec_attr_pair(a))
                } else {
                    let ef3 = if self_closing && name == target {
                        false
                    } else {
                        ef2
                    };
                    spec_extract(s, p2, target, parent, pf2, ef3, single, attrs_mode)
                }
            },
            XmlToken::End { name } => {
                let ef2 = if name == target {
                    false
                } else {
                    ef
                };
                spec_extract(s, p2, target, parent, pf, ef2, single, attrs_mode)
            },
            XmlToken::Text { body } => {
                if !attrs_mode && ef && has_non_ws(body) {
                    if single {
                        seq![body]
                    } else {
                        seq![body] + spec_extract(s, p2, target, parent, pf, ef, single, attrs_mode)
                    }
                } else {
                    spec_extract(s, p2, target, parent, pf, ef, single, attrs_mode)
                }
            },
        },
    }
}

#[via_fn]
proof fn spec_extract_decreases(
    s: Seq<u8>,
    pos: int,
    target: Seq<u8>,
    parent: Option<Seq<u8>>,
    pf: bool,
    ef: bool,
    single: bool,
    attrs_mode: bool,
) {
    lemma_next_token_advances(s, pos);
}

/// The view of an optional parent scope argument.
pub open spec fn spec_parent_view(parent: Option<&[u8]>) -> Option<Seq<u8>> {
    match parent {
        Option::Some(p) => Some(p@),
        Option::None => None,
    }
}

/// What `parse_soap` returns: the extraction over the whole buffer, with
/// the parent scope taken as already entered when no parent is given.
pub open spec fn spec_parse_soap(
    s: Seq<u8>,
    target: Seq<u8>,
    parent: Option<Seq<u8>>,
    single: bool,
    attrs_mode: bool,
) -> Seq<Seq<u8>> {
    spec_extract(s, 0, target, parent, parent is None, false, single, attrs_mode)
}

/// Render each attribute of `attrs` as `name=value`.
fn format_attrs(attrs: &Vec<(Vec<u8>, Vec<u8>)>) -> (r: Vec<Vec<u8>>)
    ensures
        r.deep_view() == attrs.deep_view().map_values(|a: (Seq<u8>, Seq<u8>)| spec_attr_pair(a)),
{
    let mut r: Vec<Vec<u8>> = Vec::new();
    let n = attrs.len();
    let mut i: usize = 0;
    while i < n
        invariant
            i <= n,
            n == attrs@.len(),
            r.deep_view() =~~= attrs.deep_view().subrange(0, i as int).map_values(
                |a: (Seq<u8>, Seq<u8>)| spec_attr_pair(a),
            ),
        decreases n - i,
    {
        let mut pair: Vec<u8> = Vec::new();
        crate::text::append_bytes(&mut pair, attrs[i].0.as_slice());
        pair.push(EQUALS);
        crate::text::append_bytes(&mut pair, attrs[i].1.as_slice());
        let ghost old_r = r.deep_view();
        proof {
            assert(pair@ =~= spec_attr_pair(attrs.deep_view()[i as int]));
        }
        r.push(pair);
        proof {
            assert(r.deep_view() =~~= old_r.push(pair@));
            assert(r.deep_view() =~~= attrs.deep_view().subrange(0, i + 1).map_values(
                |a: (Seq<u8>, Seq<u8>)| spec_attr_pair(a),
            ));
        }
        i += 1;
    }
    proof {
        assert(attrs.deep_view().subrange(0, n as int) =~~= attrs.deep_view());
    }
    r
}

/// Extract field text (or attributes) from a SOAP response.
///
/// `element_to_find` is matched against local tag names; when `parent` is
/// given, matching begins only after a start tag with that local name has
/// been seen.  With `is_single` the first captured text run ends the scan;
/// with `is_attributes` the attributes of the first matching element are
/// returned instead, each rendered as `name=value`.  An empty result means
/// the field is absent; a malformed document yields whatever was collected
/// before the malformed token.
pub fn parse_soap(
    response: &[u8],
    element_to_find: &[u8],
    parent: Option<&[u8]>,
    is_single: bool,
    is_attributes: bool,
) -> (r: Vec<Vec<u8>>)
    ensures
        r.deep_view() == spec_parse_soap(
            response@,
            element_to_find@,
            spec_parent_view(parent),
            is_single,
            is_attributes,
        ),
{
    let ghost target = element_to_find@;
    let ghost pview = spec_parent_view(parent);
    let mut r: Vec<Vec<u8>> = Vec::new();
    let mut pos: usize = 0;
    let mut pf: bool = parent.is_none();
    let mut ef: bool = false;
    let n = response.len();
    proof {
        assert(r.deep_view() + spec_extract(response@, 0, target, pview, pf, ef, is_single,
            is_attributes) =~~= spec_extract(response@, 0, target, pview, pf, ef, is_single,
            is_attributes));
    }
    loop
        invariant_except_break
            pos <= n,
            n == response@.len(),
            target == element_to_find@,
            pview == spec_parent_view(parent),
            spec_parse_soap(response@, target, pview, is_single, is_attributes) == r.deep_view()
                + spec_extract(response@, pos as int, target, pview, pf, ef, is_single,
                is_attributes),
        ensures
            r.deep_view() == spec_parse_soap(response@, target, pview, is_single, is_attributes),
        decreases n - pos,
    {
        let tok = next_token(response, pos);
        match tok {
            Option::None => {
                proof {
                    assert(r.deep_view() + spec_extract(response@, pos as int, target, pview, pf,
                        ef, is_single, is_attributes) =~~= r.deep_view());
                }
                break;
            },
            Option::Some((t, p2)) => {
                let ghost tview = t.view();
                let ghost prepos = pos as int;
                let ghost pre = spec_extract(response@, prepos, target, pview, pf, ef, is_single,
                    is_attributes);
                proof {
                    assert(spec_next_token(response@, prepos) == Some((tview, p2 as int)));
                }
                match t {
                    Token::Skip => {
                        proof {
                            assert(pre == spec_extract(response@, p2 as int, target, pview, pf,
                                ef, is_single, is_attributes));
                        }
                        pos = p2;
                    },
                    Token::Start { name, attrs, self_closing } => {
                        let ghost gname = name@;
                        let ghost gattrs = attrs.deep_view();
                        proof {
                            assert(tview == (XmlToken::Start {
                                name: gname,
                                attrs: gattrs,
                                self_closing,
                            }));
                        }
                        let matches_parent = match parent {
                            Option::Some(p) => crate::text::bytes_eq(name.as_slice(), p),
                            Option::None => false,
                        };
                        let pf2 = pf || matches_parent;
                        let is_target = crate::text::bytes_eq(name.as_slice(), element_to_find);
                        let ef2 = ef || (pf2 && is_target);
                        if is_attributes && ef2 && attrs.len() > 0 {
                            let formatted = format_attrs(&attrs);
                            let mut out = r;
                            let mut extra = formatted;
                            let ghost old_r = out.deep_view();
                            out.append(&mut extra);
                            proof {
                                assert(pre =~~= gattrs.map_values(
                                    |a: (Seq<u8>, Seq<u8>)| spec_attr_pair(a),
                                ));
                                assert(formatted.deep_view() =~~= pre);
                                assert(out.deep_view() =~~= old_r + formatted.deep_view());
                                assert(out.deep_view() =~~= spec_parse_soap(response@, target,
                                    pview, is_single, is_attributes));
                            }
                            return out;
                        }
                        let ef3 = if self_closing && is_target {
                            false
                        } else {
                            ef2
                        };
                        proof {
                            assert(pre == spec_extract(response@, p2 as int, target, pview, pf2,
                                ef3, is_single, is_attributes));
                        }
                        pf = pf2;
                        ef = ef3;
                        pos = p2;
                    },
                    Token::End { name } => {
                        let ghost gname = name@;
                        proof {
                            assert(tview == (XmlToken::End { name: gname }));
                        }
                        let is_target = crate::text::bytes_eq(name.as_slice(), element_to_find);
                        let ef2 = if is_target {
                            false
                        } else {
                            ef
                        };
                        proof {
                            assert(pre == spec_extract(response@, p2 as int, target, pview, pf,
                                ef2, is_single, is_attributes));
                        }
                        ef = ef2;
                        pos = p2;
                    },
                    Token::Text { body } => {
                        let ghost gbody = body@;
                        proof {
                            assert(tview == (XmlToken::Text { body: gbody }));
                        }
                        if !is_attributes && ef && non_ws(body.as_slice()) {
                            let ghost old_r = r.deep_view();
                            r.push(body);
                            proof {
                                assert(r.deep_view() =~~= old_r.push(gbody));
                            }
                            if is_single {
                                proof {
                                    assert(pre == seq![gbody]);
                                    assert(old_r + pre =~~= r.deep_view());
                                    assert(r.deep_view() =~~= spec_parse_soap(response@, target,
                                        pview, is_single, is_attributes));
                                }
                                break;
                            }
                            proof {
                                assert(pre == seq![gbody] + spec_extract(response@, p2 as int,
                                    target, pview, pf, ef, is_single, is_attributes));
                                assert(old_r + pre =~~= r.deep_view() + spec_extract(response@,
                                    p2 as int, target, pview, pf, ef, is_single, is_attributes));
                            }
                        } else {
                            proof {
                                assert(pre == spec_extract(response@, p2 as int, target, pview,
                                    pf, ef, is_single, is_attributes));
                            }
                        }
                        pos = p2;
                    },
                }
            },
        }
    }
    r
}

/// The scanner reads tokens from `pos` to the very end of `s` without
/// hitting a malformed construct.
pub open spec fn spec_scan_clean(s: Seq<u8>, pos: int) -> bool
    decreases s.len() - pos,
    when 0 <= pos <= s.len()
    via spec_scan_clean_decreases
{
    match spec_next_token(s, pos) {
        None => pos == s.len(),
        Some((tok, p2)) => spec_scan_clean(s, p2),
    }
}

#[via_fn]
proof fn spec_scan_clean_decreases(s: Seq<u8>, pos: int) {
    lemma_next_token_advances(s, pos);
}

/// Whether a response tokenizes to its very end.  The extractor keeps
/// whatever it collected either way; this check lets a caller tell a
/// partial result apart from a complete one and report
/// `MalformedResponse`.
pub fn scan_document(response: &[u8]) -> (r: Result<(), crate::error::OnvifError>)
    ensures
        r is Ok <==> spec_scan_clean(response@, 0),
        r matches Err(e) ==> e is MalformedResponse,
{
    let n = response.len();
    let mut pos: usize = 0;
    loop
        invariant_except_break
            pos <= n,
            n == response@.len(),
            spec_scan_clean(response@, 0) == spec_scan_clean(response@, pos as int),
        ensures
            pos <= n,
            n == response@.len(),
            spec_scan_clean(response@, 0) == spec_scan_clean(response@, pos as int),
            spec_next_token(response@, pos as int) is None,
        decreases n - pos,
    {
        match next_token(response, pos) {
            Option::None => {
                break;
            },
            Option::Some((t, p2)) => {
                let ghost tview = t.view();
                proof {
                    assert(spec_next_token(response@, pos as int) == Some((tview, p2 as int)));
                    assert(spec_scan_clean(response@, pos as int) == spec_scan_clean(
                        response@,
                        p2 as int,
                    ));
                }
                pos = p2;
            },
        }
    }
    proof {
        assert(spec_scan_clean(response@, pos as int) == (pos == n));
    }
    if pos == n {
        Ok(())
    } else {
        Err(crate::error::OnvifError::MalformedResponse)
    }
}

// ------------------------------------------------------------------
// A canonical serializer, and what the extractor returns on its output.
// ------------------------------------------------------------------
/// `<name>`
pub open spec fn spec_open_tag(name: Seq<u8>) -> Seq<u8> {
    seq![LT] + name + seq![GT]
}

/// `</name>`
pub open spec fn spec_close_tag(name: Seq<u8>) -> Seq<u8> {
    seq![LT, SLASH] + name + seq![GT]
}

/// `<name>text</name>`
pub open spec fn spec_element(name: Seq<u8>, text: Seq<u8>) -> Seq<u8> {
    spec_open_tag(name) + text + spec_close_tag(name)
}

/// One element per value, in order.
pub open spec fn spec_elements(name: Seq<u8>, values: Seq<Seq<u8>>) -> Seq<u8>
    decreases values.len(),
{
    if values.len() == 0 {
        Seq::empty()
    } else {
        spec_element(name, values[0]) + spec_elements(
            name,
            values.subrange(1, values.len() as int),
        )
    }
}

/// A parent element wrapping one child element per value.
pub open spec fn spec_envelope(parent: Seq<u8>, target: Seq<u8>, values: Seq<Seq<u8>>) -> Seq<u8> {
    spec_open_tag(parent) + spec_elements(target, values) + spec_close_tag(parent)
}

/// A byte that may stand in a serialized tag name: no markup, no whitespace,
/// no namespace colon.
pub open spec fn valid_name_byte(b: u8) -> bool {
    !is_ws(b) && b != LT && b != GT && b != SLASH && b != COLON && b != QMARK && b != BANG && b
        != EQUALS && b != DQUOTE
}

/// A tag name the scanner reads back exactly as written.
pub open spec fn valid_name(n: Seq<u8>) -> bool {
    n.len() > 0 && forall|i: int| 0 <= i < n.len() ==> valid_name_byte(#[trigger] n[i])
}

/// A text value the scanner captures exactly as written: no `<`, and not
/// whitespace alone.
pub open spec fn valid_text(v: Seq<u8>) -> bool {
    has_non_ws(v) && forall|i: int| 0 <= i < v.len() ==> #[trigger] v[i] != LT
}

pub proof fn lemma_elements_snoc(name: Seq<u8>, vs: Seq<Seq<u8>>, v: Seq<u8>)
    ensures
        spec_elements(name, vs.push(v)) == spec_elements(name, vs) + spec_element(name, v),
    decreases vs.len(),
{
    if vs.len() == 0 {
        let tail = vs.push(v).subrange(1, 1);
        assert(tail =~~= Seq::<Seq<u8>>::empty());
        assert(spec_elements(name, tail) == Seq::<u8>::empty());
        assert(spec_elements(name, vs.push(v)) =~= spec_element(name, v));
        assert(spec_elements(name, vs) + spec_element(name, v) =~= spec_element(name, v));
    } else {
        assert(vs.push(v).subrange(1, vs.len() as int + 1) =~~= vs.subrange(
            1,
            vs.len() as int,
        ).push(v));
        lemma_elements_snoc(name, vs.subrange(1, vs.len() as int), v);
        assert(spec_elements(name, vs.push(v)) =~= spec_elements(name, vs) + spec_element(
            name,
            v,
        ));
    }
}

/// Serialize a minimal envelope: a parent element wrapping one child
/// element per value, `<parent><target>v</target>...</parent>`.
pub fn xml_envelope(parent: &[u8], target: &[u8], values: &Vec<Vec<u8>>) -> (r: Vec<u8>)
    ensures
        r@ == spec_envelope(parent@, target@, values.deep_view()),
{
    let mut r: Vec<u8> = Vec::new();
    r.push(LT);
    crate::text::append_bytes(&mut r, parent);
    r.push(GT);
    proof {
        assert(r@ =~= spec_open_tag(parent@));
        assert(values.deep_view().subrange(0, 0) =~~= Seq::<Seq<u8>>::empty());
        assert(r@ =~= spec_open_tag(parent@) + spec_elements(
            target@,
            values.deep_view().subrange(0, 0),
        ));
    }
    let n = values.len();
    let mut i: usize = 0;
    while i < n
        invariant
            i <= n,
            n == values@.len(),
            r@ == spec_open_tag(parent@) + spec_elements(
                target@,
                values.deep_view().subrange(0, i as int),
            ),
        decreases n - i,
    {
        let ghost pre = r@;
        r.push(LT);
        crate::text::append_bytes(&mut r, target);
        r.push(GT);
        crate::text::append_bytes(&mut r, values[i].as_slice());
        r.push(LT);
        r.push(SLASH);
        crate::text::append_bytes(&mut r, target);
        r.push(GT);
        proof {
            assert(r@ =~= pre + spec_element(target@, values.deep_view()[i as int]));
            lemma_elements_snoc(
                target@,
                values.deep_view().subrange(0, i as int),
                values.deep_view()[i as int],
            );
            assert(values.deep_view().subrange(0, i + 1) =~~= values.deep_view().subrange(
                0,
                i as int,
            ).push(values.deep_view()[i as int]));
            assert(r@ =~= spec_open_tag(parent@) + spec_elements(
                target@,
                values.deep_view().subrange(0, i + 1),
            ));
        }
        i += 1;
    }
    r.push(LT);
    r.push(SLASH);
    crate::text::append_bytes(&mut r, parent);
    r.push(GT);
    proof {
        assert(values.deep_view().subrange(0, n as int) =~~= values.deep_view());
        assert(r@ =~= spec_envelope(parent@, target@, values.deep_view()));
    }
    r
}

// ------------------------------------------------------------------
// What the scanner reads at a serialized tag or text run.
// ------------------------------------------------------------------
/// At a serialized `<name>` the scanner reads a plain start tag.
pub proof fn lemma_token_at_open(s: Seq<u8>, pos: int, name: Seq<u8>)
    requires
        valid_name(name),
        is_match_at(s, spec_open_tag(name), pos),
    ensures
        spec_next_token(s, pos) == Some(
            (
                XmlToken::Start {
                    name,
                    attrs: Seq::<(Seq<u8>, Seq<u8>)>::empty(),
                    self_closing: false,
                },
                pos + name.len() + 2,
            ),
        ),
{
    let tag = spec_open_tag(name);
    let nl = name.len() as int;
    assert forall|i: int| #![trigger tag[i]] 0 <= i < tag.len() implies s[pos + i] == tag[i] by {
        crate::text::lemma_match_at_byte(s, tag, pos, i);
    }
    assert(tag[0] == LT);
    assert(s[pos] == LT);
    assert forall|j: int| #![trigger name[j]] 0 <= j < nl implies s[pos + 1 + j] == name[j] by {
        assert(tag[1 + j] == name[j]);
    }
    assert(tag[1 + nl] == GT);
    assert(s[pos + 1 + nl] == GT);
    assert forall|j: int| pos + 1 <= j < pos + 1 + nl implies s[j] != GT by {
        assert(valid_name_byte(name[j - (pos + 1)]));
        assert(s[pos + 1 + (j - (pos + 1))] == name[j - (pos + 1)]);
    }
    lemma_find_is_first(s, pos + 1, GT, pos + 1 + nl);
    let close = pos + 1 + nl;
    let inner = s.subrange(pos + 1, close);
    assert(inner =~= name);
    assert(valid_name_byte(name[0]));
    assert(valid_name_byte(name[nl - 1]));
    assert(inner[0] != QMARK && inner[0] != BANG && inner[0] != SLASH);
    assert(inner[inner.len() - 1] != SLASH);
    assert forall|j: int| 0 <= j < nl implies !is_name_end(name[j]) by {
        assert(valid_name_byte(name[j]));
    }
    lemma_find_name_end_is_first(name, 0, nl);
    assert(name.subrange(0, nl) =~= name);
    assert forall|j: int| 0 <= j < nl implies name[j] != COLON by {
        assert(valid_name_byte(name[j]));
    }
    lemma_local_no_colon(name);
    lemma_skip_ws_is_first(name, nl, nl);
    assert(spec_parse_attrs(name, nl) =~~= Seq::<(Seq<u8>, Seq<u8>)>::empty());
}

/// At a serialized `</name>` the scanner reads an end tag.
pub proof fn lemma_token_at_close(s: Seq<u8>, pos: int, name: Seq<u8>)
    requires
        valid_name(name),
        is_match_at(s, spec_close_tag(name), pos),
    ensures
        spec_next_token(s, pos) == Some((XmlToken::End { name }, pos + name.len() + 3)),
{
    let tag = spec_close_tag(name);
    let nl = name.len() as int;
    assert forall|i: int| #![trigger tag[i]] 0 <= i < tag.len() implies s[pos + i] == tag[i] by {
        crate::text::lemma_match_at_byte(s, tag, pos, i);
    }
    assert(tag[0] == LT);
    assert(tag[1] == SLASH);
    assert(s[pos] == LT);
    assert(s[pos + 1] == SLASH);
    assert forall|j: int| #![trigger name[j]] 0 <= j < nl implies s[pos + 2 + j] == name[j] by {
        assert(tag[2 + j] == name[j]);
    }
    assert(tag[2 + nl] == GT);
    assert(s[pos + 2 + nl] == GT);
    assert forall|j: int| pos + 1 <= j < pos + 2 + nl implies s[j] != GT by {
        if j == pos + 1 {
            assert(s[j] == SLASH);
        } else {
            assert(valid_name_byte(name[j - (pos + 2)]));
            assert(s[pos + 2 + (j - (pos + 2))] == name[j - (pos + 2)]);
        }
    }
    lemma_find_is_first(s, pos + 1, GT, pos + 2 + nl);
    let close = pos + 2 + nl;
    let inner = s.subrange(pos + 1, close);
    assert(inner.len() == nl + 1);
    assert(inner[0] == SLASH);
    let raw = inner.subrange(1, inner.len() as int);
    assert(raw =~= name);
    assert forall|j: int| 0 <= j < nl implies !is_name_end(name[j]) by {
        assert(valid_name_byte(name[j]));
    }
    lemma_find_name_end_is_first(name, 0, nl);
    assert(name.subrange(0, nl) =~= name);
    assert forall|j: int| 0 <= j < nl implies name[j] != COLON by {
        assert(valid_name_byte(name[j]));
    }
    lemma_local_no_colon(name);
}

/// At a serialized text run followed by a tag the scanner reads the run.
pub proof fn lemma_token_at_text(s: Seq<u8>, pos: int, v: Seq<u8>)
    requires
        v.len() > 0,
        forall|i: int| 0 <= i < v.len() ==> #[trigger] v[i] != LT,
        is_match_at(s, v, pos),
        pos + v.len() == s.len() || s[pos + v.len()] == LT,
    ensures
        spec_next_token(s, pos) == Some((XmlToken::Text { body: v }, pos + v.len())),
{
    let vl = v.len() as int;
    assert forall|i: int| #![trigger v[i]] 0 <= i < vl implies s[pos + i] == v[i] by {
        crate::text::lemma_match_at_byte(s, v, pos, i);
    }
    assert(v[0] != LT);
    assert(s[pos] != LT);
    assert forall|j: int| pos <= j < pos + vl implies s[j] != LT by {
        assert(v[j - pos] != LT);
        assert(s[pos + (j - pos)] == v[j - pos]);
    }
    lemma_find_is_first(s, pos, LT, pos + vl);
    assert(s.subrange(pos, pos + vl) =~= v);
}

/// The extractor's walk over the serialized elements and the closing parent
/// tag.  Whatever the element flag held on entry, the result is the list of
/// values (or just the first in single mode).
proof fn lemma_extract_elements(
    s: Seq<u8>,
    t: Seq<u8>,
    p: Seq<u8>,
    vs: Seq<Seq<u8>>,
    pos: int,
    ef0: bool,
    single: bool,
)
    requires
        valid_name(t),
        valid_name(p),
        forall|i: int| 0 <= i < vs.len() ==> valid_text(#[trigger] vs[i]),
        0 <= pos <= s.len(),
        is_match_at(s, spec_elements(t, vs) + spec_close_tag(p), pos),
        pos + spec_elements(t, vs).len() + spec_close_tag(p).len() == s.len(),
    ensures
        spec_extract(s, pos, t, Some(p), true, ef0, single, false) == if single {
            if vs.len() == 0 {
                Seq::<Seq<u8>>::empty()
            } else {
                seq![vs[0]]
            }
        } else {
            vs
        },
    decreases vs.len(),
{
    crate::text::lemma_match_split(s, spec_elements(t, vs), spec_close_tag(p), pos);
    if vs.len() == 0 {
        assert(spec_elements(t, vs).len() == 0);
        lemma_token_at_close(s, pos, p);
        let pos2 = pos + p.len() + 3;
        assert(pos2 == s.len());
        assert(spec_extract(s, pos2, t, Some(p), true, false, single, false) == Seq::<
            Seq<u8>,
        >::empty());
        assert(spec_extract(s, pos2, t, Some(p), true, ef0, single, false) == Seq::<
            Seq<u8>,
        >::empty());
    } else {
        let v = vs[0];
        let rest = vs.subrange(1, vs.len() as int);
        assert(spec_elements(t, vs) == spec_element(t, v) + spec_elements(t, rest));
        crate::text::lemma_match_split(s, spec_element(t, v), spec_elements(t, rest), pos);
        assert(spec_element(t, v) =~= spec_open_tag(t) + (v + spec_close_tag(t)));
        crate::text::lemma_match_split(s, spec_open_tag(t), v + spec_close_tag(t), pos);
        let pos1 = pos + t.len() + 2;
        crate::text::lemma_match_split(s, v, spec_close_tag(t), pos1);
        let pos2 = pos1 + v.len();
        let pos3 = pos2 + t.len() + 3;
        crate::text::lemma_match_join(s, spec_elements(t, rest), spec_close_tag(p), pos3);
        // the start tag of the target
        lemma_token_at_open(s, pos, t);
        // the text run: the close tag that follows starts with '<'
        assert(s[pos2] == LT) by {
            assert(s.subrange(pos2, pos2 + spec_close_tag(t).len())[0] == spec_close_tag(t)[0]);
        }
        assert(has_non_ws(v));
        assert(v.len() > 0);
        lemma_token_at_text(s, pos1, v);
        // the end tag of the target
        lemma_token_at_close(s, pos2, t);
        // walk: Start makes the element flag true
        assert(spec_extract(s, pos, t, Some(p), true, ef0, single, false) == spec_extract(
            s,
            pos1,
            t,
            Some(p),
            true,
            true,
            single,
            false,
        ));
        if single {
            assert(spec_extract(s, pos1, t, Some(p), true, true, single, false) == seq![v]);
        } else {
            assert(spec_extract(s, pos1, t, Some(p), true, true, single, false) == seq![v]
                + spec_extract(s, pos2, t, Some(p), true, true, single, false));
            assert(spec_extract(s, pos2, t, Some(p), true, true, single, false) == spec_extract(
                s,
                pos3,
                t,
                Some(p),
                true,
                false,
                single,
                false,
            ));
            assert(forall|i: int| 0 <= i < rest.len() ==> valid_text(#[trigger] rest[i]));
            lemma_extract_elements(s, t, p, rest, pos3, false, single);
            assert(seq![v] + rest =~~= vs);
        }
    }
}

/// For any serialized envelope holding one target element per value,
/// all-matching mode returns exactly the values, in document order, and
/// first-text-only mode returns exactly the first value.
///
/// This is the extractor's core guarantee; it covers canonical documents
/// built by `xml_envelope`, with scanner-safe names and text values.
pub proof fn lemma_envelope_extract(
    parent: Seq<u8>,
    target: Seq<u8>,
    values: Seq<Seq<u8>>,
    single: bool,
)
    requires
        valid_name(parent),
        valid_name(target),
        forall|i: int| 0 <= i < values.len() ==> valid_text(#[trigger] values[i]),
    ensures
        spec_parse_soap(
            spec_envelope(parent, target, values),
            target,
            Some(parent),
            single,
            false,
        ) == if single {
            if values.len() == 0 {
                Seq::<Seq<u8>>::empty()
            } else {
                seq![values[0]]
            }
        } else {
            values
        },
{
    let s = spec_envelope(parent, target, values);
    assert(is_match_at(s, s, 0)) by {
        assert(s.subrange(0, s.len() as int) =~= s);
    }
    assert(s =~= spec_open_tag(parent) + (spec_elements(target, values) + spec_close_tag(parent)));
    crate::text::lemma_match_split(
        s,
        spec_open_tag(parent),
        spec_elements(target, values) + spec_close_tag(parent),
        0,
    );
    lemma_token_at_open(s, 0, parent);
    let pos1 = parent.len() as int + 2;
    let ef0 = parent == target;
    assert(spec_extract(s, 0, target, Some(parent), false, false, single, false) == spec_extract(
        s,
        pos1,
        target,
        Some(parent),
        true,
        ef0,
        single,
        false,
    ));
    assert(s.len() == pos1 + spec_elements(target, values).len() + spec_close_tag(parent).len());
    lemma_extract_elements(s, target, parent, values, pos1, ef0, single);
}

// ------------------------------------------------------------------
// The same guarantee over envelopes with other elements mixed in.
// ------------------------------------------------------------------
/// One child element of a serialized envelope: an occurrence of the
/// target element, or some other element with its own text.
pub enum EnvItem {
    TargetItem { value: Seq<u8> },
    OtherItem { name: Seq<u8>, text: Seq<u8> },
}

/// The bytes one child element serializes to.
pub open spec fn spec_item_bytes(target: Seq<u8>, item: EnvItem) -> Seq<u8> {
    match item {
        EnvItem::TargetItem { value } => spec_element(target, value),
        EnvItem::OtherItem { name, text } => spec_element(name, text),
    }
}

/// The bytes a child list serializes to.
pub open spec fn spec_items_bytes(target: Seq<u8>, items: Seq<EnvItem>) -> Seq<u8>
    decreases items.len(),
{
    if items.len() == 0 {
        Seq::empty()
    } else {
        spec_item_bytes(target, items[0]) + spec_items_bytes(
            target,
            items.subrange(1, items.len() as int),
        )
    }
}

/// A child the scanner reads back exactly as serialized: target values
/// are scanner-safe text, other elements have scanner-safe names distinct
/// from the target and scanner-safe text.
pub open spec fn spec_item_ok(target: Seq<u8>, item: EnvItem) -> bool {
    match item {
        EnvItem::TargetItem { value } => valid_text(value),
        EnvItem::OtherItem { name, text } => valid_name(name) && name != target && valid_text(
            text,
        ),
    }
}

/// The text values of the target occurrences, in document order.
pub open spec fn spec_target_values(items: Seq<EnvItem>) -> Seq<Seq<u8>>
    decreases items.len(),
{
    if items.len() == 0 {
        Seq::empty()
    } else {
        match items[0] {
            EnvItem::TargetItem { value } => seq![value] + spec_target_values(
                items.subrange(1, items.len() as int),
            ),
            EnvItem::OtherItem { .. } => spec_target_values(items.subrange(1, items.len() as int)),
        }
    }
}

/// A parent element wrapping a mixed child list.
pub open spec fn spec_mixed_envelope(parent: Seq<u8>, target: Seq<u8>, items: Seq<EnvItem>) -> Seq<
    u8,
> {
    spec_open_tag(parent) + spec_items_bytes(target, items) + spec_close_tag(parent)
}

/// The extractor's walk over a mixed child list and the closing parent
/// tag, entered outside any target occurrence.
proof fn lemma_extract_items(
    s: Seq<u8>,
    t: Seq<u8>,
    p: Seq<u8>,
    items: Seq<EnvItem>,
    pos: int,
    single: bool,
)
    requires
        valid_name(t),
        valid_name(p),
        forall|i: int| 0 <= i < items.len() ==> spec_item_ok(t, #[trigger] items[i]),
        0 <= pos <= s.len(),
        is_match_at(s, spec_items_bytes(t, items) + spec_close_tag(p), pos),
        pos + spec_items_bytes(t, items).len() + spec_close_tag(p).len() == s.len(),
    ensures
        spec_extract(s, pos, t, Some(p), true, false, single, false) == ({
            let vs = spec_target_values(items);
            if single {
                if vs.len() == 0 {
                    Seq::<Seq<u8>>::empty()
                } else {
                    seq![vs[0]]
                }
            } else {
                vs
            }
        }),
    decreases items.len(),
{
    crate::text::lemma_match_split(s, spec_items_bytes(t, items), spec_close_tag(p), pos);
    if items.len() == 0 {
        lemma_token_at_close(s, pos, p);
        let pos2 = pos + p.len() + 3;
        assert(pos2 == s.len());
        assert(spec_extract(s, pos2, t, Some(p), true, false, single, false) == Seq::<
            Seq<u8>,
        >::empty());
    } else {
        let item = items[0];
        let rest = items.subrange(1, items.len() as int);
        let name = match item {
            EnvItem::TargetItem { .. } => t,
            EnvItem::OtherItem { name, .. } => name,
        };
        let text = match item {
            EnvItem::TargetItem { value } => value,
            EnvItem::OtherItem { text, .. } => text,
        };
        assert(spec_item_bytes(t, item) == spec_element(name, text));
        assert(spec_items_bytes(t, items) == spec_element(name, text) + spec_items_bytes(t, rest));
        crate::text::lemma_match_split(
            s,
            spec_element(name, text),
            spec_items_bytes(t, rest),
            pos,
        );
        assert(spec_element(name, text) =~= spec_open_tag(name) + (text + spec_close_tag(name)));
        crate::text::lemma_match_split(s, spec_open_tag(name), text + spec_close_tag(name), pos);
        let pos1 = pos + name.len() + 2;
        crate::text::lemma_match_split(s, text, spec_close_tag(name), pos1);
        let pos2 = pos1 + text.len();
        let pos3 = pos2 + name.len() + 3;
        crate::text::lemma_match_join(s, spec_items_bytes(t, rest), spec_close_tag(p), pos3);
        lemma_token_at_open(s, pos, name);
        assert(s[pos2] == LT) by {
            assert(s.subrange(pos2, pos2 + spec_close_tag(name).len())[0] == spec_close_tag(
                name,
            )[0]);
        }
        lemma_token_at_text(s, pos1, text);
        lemma_token_at_close(s, pos2, name);
        let entered = (name == t);
        // the start tag raises the element flag exactly for the target
        assert(spec_extract(s, pos, t, Some(p), true, false, single, false) == spec_extract(
            s,
            pos1,
            t,
            Some(p),
            true,
            entered,
            single,
            false,
        ));
        assert(forall|i: int| 0 <= i < rest.len() ==> spec_item_ok(t, #[trigger] rest[i]));
        if entered {
            let vs = spec_target_values(items);
            assert(vs == seq![text] + spec_target_values(rest));
            if single {
                assert(spec_extract(s, pos1, t, Some(p), true, true, single, false) == seq![text]);
            } else {
                assert(spec_extract(s, pos1, t, Some(p), true, true, single, false) == seq![text]
                    + spec_extract(s, pos2, t, Some(p), true, true, single, false));
                assert(spec_extract(s, pos2, t, Some(p), true, true, single, false)
                    == spec_extract(s, pos3, t, Some(p), true, false, single, false));
                lemma_extract_items(s, t, p, rest, pos3, single);
            }
        } else {
            // a foreign element: its text is scanned outside the target
            assert(spec_extract(s, pos1, t, Some(p), true, false, single, false) == spec_extract(
                s,
                pos2,
                t,
                Some(p),
                true,
                false,
                single,
                false,
            ));
            assert(spec_extract(s, pos2, t, Some(p), true, false, single, false) == spec_extract(
                s,
                pos3,
                t,
                Some(p),
                true,
                false,
                single,
                false,
            ));
            lemma_extract_items(s, t, p, rest, pos3, single);
            assert(spec_target_values(items) == spec_target_values(rest));
        }
    }
}

/// For any serialized envelope whose children mix target occurrences with
/// other elements, all-matching mode returns exactly the target texts in
/// document order, and first-text-only mode returns exactly the first;
/// text under the other elements is never taken.
pub proof fn lemma_mixed_envelope_extract(
    parent: Seq<u8>,
    target: Seq<u8>,
    items: Seq<EnvItem>,
    single: bool,
)
    requires
        valid_name(parent),
        valid_name(target),
        parent != target,
        forall|i: int| 0 <= i < items.len() ==> spec_item_ok(target, #[trigger] items[i]),
    ensures
        spec_parse_soap(
            spec_mixed_envelope(parent, target, items),
            target,
            Some(parent),
            single,
            false,
        ) == ({
            let vs = spec_target_values(items);
            if single {
                if vs.len() == 0 {
                    Seq::<Seq<u8>>::empty()
                } else {
                    seq![vs[0]]
                }
            } else {
                vs
            }
        }),
{
    let s = spec_mixed_envelope(parent, target, items);
    assert(is_match_at(s, s, 0)) by {
        assert(s.subrange(0, s.len() as int) =~= s);
    }
    assert(s =~= spec_open_tag(parent) + (spec_items_bytes(target, items) + spec_close_tag(
        parent,
    )));
    crate::text::lemma_match_split(
        s,
        spec_open_tag(parent),
        spec_items_bytes(target, items) + spec_close_tag(parent),
        0,
    );
    lemma_token_at_open(s, 0, parent);
    let pos1 = parent.len() as int + 2;
    assert(spec_extract(s, 0, target, Some(parent), false, false, single, false) == spec_extract(
        s,
        pos1,
        target,
        Some(parent),
        true,
        false,
        single,
        false,
    ));
    assert(s.len() == pos1 + spec_items_bytes(target, items).len() + spec_close_tag(parent).len());
    lemma_extract_items(s, target, parent, items, pos1, single);
}

/// Serializing one element-value pair and extracting it again returns the
/// value unchanged, byte for byte, whitespace included.
pub proof fn lemma_envelope_round_trip(parent: Seq<u8>, target: Seq<u8>, value: Seq<u8>)
    requires
        valid_name(parent),
        valid_name(target),
        valid_text(value),
    ensures
        spec_parse_soap(
            spec_envelope(parent, target, seq![value]),
            target,
            Some(parent),
            true,
            false,
        ) == seq![value],
{
    lemma_envelope_extract(parent, target, seq![value], true);
}

} // verus!
