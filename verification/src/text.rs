//! The tagged ASCII mesh grammar.
//!
//! ```text
//! solid [NAME]
//!   ( facet normal nx ny nz
//!       outer loop
//!         vertex x y z      (exactly three times)
//!       endloop
//!     endfacet )*
//! endsolid [NAME]
//! ```
//!
//! Whitespace between tokens is insignificant and arbitrary.  The
//! optional `NAME` is an opaque token; when it is given it must
//! reappear identically after `endsolid`.  After the closing tag only
//! whitespace may follow — a conservative reading of the grammar,
//! chosen deliberately and encoded in `spec_parse_tokens`.  A solid
//! whose name would read `facet` or `endsolid` is taken for the
//! keyword instead: the grammar cannot tell the two apart.
//!
//! The parser is a single-pass tokenizer (maximal runs of
//! non-whitespace bytes) followed by recursive descent over the token
//! list, so no backtracking beyond one token of lookahead occurs.

use vstd::prelude::*;

use crate::numbits::{decimal_of_bits, f32_of_token, finite_bits, is_decimal_byte, is_finite_bits, parse_f32_token, render_f32_bits};
use crate::types::{Solid, StlError, Triangle, Vertex};

verus! {

// ---------------------------------------------------------------
// Tokenizing
// ---------------------------------------------------------------

/// Space, tab, line feed or carriage return.
pub open spec fn is_ws(c: u8) -> bool {
    c == 32 || c == 9 || c == 10 || c == 13
}

/// The first position at or after `i` holding a non-whitespace byte,
/// or the end of `s`.
pub open spec fn next_non_ws(s: Seq<u8>, i: int) -> int
    decreases s.len() - i,
    when 0 <= i <= s.len()
{
    if i >= s.len() {
        s.len() as int
    } else if is_ws(s[i]) {
        next_non_ws(s, i + 1)
    } else {
        i
    }
}

/// The first position at or after `i` holding a whitespace byte, or
/// the end of `s`: the end of a token that starts at `i`.
pub open spec fn token_end(s: Seq<u8>, i: int) -> int
    decreases s.len() - i,
    when 0 <= i <= s.len()
{
    if i >= s.len() {
        s.len() as int
    } else if is_ws(s[i]) {
        i
    } else {
        token_end(s, i + 1)
    }
}

pub proof fn lemma_next_non_ws(s: Seq<u8>, i: int)
    requires
        0 <= i <= s.len(),
    ensures
        i <= next_non_ws(s, i) <= s.len(),
        next_non_ws(s, i) < s.len() ==> !is_ws(s[next_non_ws(s, i)]),
        forall|m: int| i <= m < next_non_ws(s, i) ==> is_ws(s[m]),
    decreases s.len() - i,
{
    if i < s.len() && is_ws(s[i]) {
        lemma_next_non_ws(s, i + 1);
    }
}

pub proof fn lemma_token_end(s: Seq<u8>, i: int)
    requires
        0 <= i <= s.len(),
    ensures
        i <= token_end(s, i) <= s.len(),
        token_end(s, i) < s.len() ==> is_ws(s[token_end(s, i)]),
        forall|m: int| i <= m < token_end(s, i) ==> !is_ws(s[m]),
        i < s.len() && !is_ws(s[i]) ==> token_end(s, i) > i,
    decreases s.len() - i,
{
    if i < s.len() && !is_ws(s[i]) {
        lemma_token_end(s, i + 1);
    }
}

/// `token_end` is pinned down by what the bytes look like.
pub proof fn lemma_token_end_exact(s: Seq<u8>, i: int, j: int)
    requires
        0 <= i <= j <= s.len(),
        forall|m: int| i <= m < j ==> !is_ws(s[m]),
        j < s.len() ==> is_ws(s[j]),
    ensures
        token_end(s, i) == j,
    decreases j - i,
{
    if i < j {
        lemma_token_end_exact(s, i + 1, j);
    }
}

/// `next_non_ws` is pinned down by what the bytes look like.
pub proof fn lemma_next_non_ws_exact(s: Seq<u8>, i: int, j: int)
    requires
        0 <= i <= j <= s.len(),
        forall|m: int| i <= m < j ==> is_ws(s[m]),
        j < s.len() ==> !is_ws(s[j]),
    ensures
        next_non_ws(s, i) == j,
    decreases j - i,
{
    if i < j {
        lemma_next_non_ws_exact(s, i + 1, j);
    }
}

/// The tokens of `s` from position `i` on: maximal runs of
/// non-whitespace bytes, in order.
pub open spec fn tokenize_from(s: Seq<u8>, i: int) -> Seq<Seq<u8>>
    decreases s.len() - i,
    when 0 <= i <= s.len()
    via tokenize_from_decreases
{
    let j = next_non_ws(s, i);
    if j >= s.len() {
        Seq::empty()
    } else {
        let k = token_end(s, j);
        seq![s.subrange(j, k)] + tokenize_from(s, k)
    }
}

#[via_fn]
proof fn tokenize_from_decreases(s: Seq<u8>, i: int) {
    lemma_next_non_ws(s, i);
    if next_non_ws(s, i) < s.len() {
        lemma_token_end(s, next_non_ws(s, i));
    }
}

/// Skipping one whitespace byte does not change the tokens.
proof fn lemma_tokenize_ws_step(s: Seq<u8>, i: int)
    requires
        0 <= i < s.len(),
        is_ws(s[i]),
    ensures
        tokenize_from(s, i) == tokenize_from(s, i + 1),
{
    assert(next_non_ws(s, i) == next_non_ws(s, i + 1));
}

/// The views of a list of byte vectors.
pub open spec fn toks_view(v: Seq<Vec<u8>>) -> Seq<Seq<u8>> {
    Seq::new(v.len(), |i: int| v[i]@)
}

fn is_ws_byte(c: u8) -> (r: bool)
    ensures
        r == is_ws(c),
{
    c == 32 || c == 9 || c == 10 || c == 13
}

/// Split `text` into its whitespace-separated tokens.
pub fn tokenize(text: &[u8]) -> (r: Vec<Vec<u8>>)
    ensures
        toks_view(r@) == tokenize_from(text@, 0),
{
    let ghost s = text@;
    let mut toks: Vec<Vec<u8>> = Vec::new();
    let mut i: usize = 0;
    proof {
        assert(toks_view(toks@) + tokenize_from(s, 0) =~= tokenize_from(s, 0));
    }
    while i < text.len()
        invariant
            s == text@,
            0 <= i <= s.len(),
            tokenize_from(s, 0) == toks_view(toks@) + tokenize_from(s, i as int),
        decreases s.len() - i,
    {
        if is_ws_byte(text[i]) {
            proof {
                lemma_tokenize_ws_step(s, i as int);
            }
            i = i + 1;
        } else {
            let start = i;
            let mut tok: Vec<u8> = Vec::new();
            while i < text.len() && !is_ws_byte(text[i])
                invariant
                    s == text@,
                    start <= i <= s.len(),
                    start < s.len(),
                    !is_ws(s[start as int]),
                    tok@ =~= s.subrange(start as int, i as int),
                    forall|m: int| start <= m < i ==> !is_ws(s[m]),
                decreases s.len() - i,
            {
                tok.push(text[i]);
                proof {
                    assert(tok@ =~= s.subrange(start as int, i as int + 1));
                }
                i = i + 1;
            }
            proof {
                lemma_token_end_exact(s, start as int, i as int);
                assert(next_non_ws(s, start as int) == start);
                assert(tokenize_from(s, start as int) == seq![s.subrange(start as int, i as int)]
                    + tokenize_from(s, i as int));
                assert(toks_view(toks@.push(tok)) =~= toks_view(toks@) + seq![tok@]);
                assert((toks_view(toks@) + seq![tok@]) + tokenize_from(s, i as int)
                    =~= toks_view(toks@) + (seq![tok@] + tokenize_from(s, i as int)));
            }
            toks.push(tok);
        }
    }
    proof {
        assert(tokenize_from(s, i as int) =~= Seq::<Seq<u8>>::empty());
        assert(toks_view(toks@) + Seq::<Seq<u8>>::empty() =~= toks_view(toks@));
    }
    toks
}

// ---------------------------------------------------------------
// The grammar over the token list
// ---------------------------------------------------------------

pub open spec fn kw_solid() -> Seq<u8> {
    seq![115u8, 111u8, 108u8, 105u8, 100u8]
}

pub open spec fn kw_endsolid() -> Seq<u8> {
    seq![101u8, 110u8, 100u8, 115u8, 111u8, 108u8, 105u8, 100u8]
}

pub open spec fn kw_facet() -> Seq<u8> {
    seq![102u8, 97u8, 99u8, 101u8, 116u8]
}

pub open spec fn kw_normal() -> Seq<u8> {
    seq![110u8, 111u8, 114u8, 109u8, 97u8, 108u8]
}

pub open spec fn kw_outer() -> Seq<u8> {
    seq![111u8, 117u8, 116u8, 101u8, 114u8]
}

pub open spec fn kw_loop() -> Seq<u8> {
    seq![108u8, 111u8, 111u8, 112u8]
}

pub open spec fn kw_vertex() -> Seq<u8> {
    seq![118u8, 101u8, 114u8, 116u8, 101u8, 120u8]
}

pub open spec fn kw_endloop() -> Seq<u8> {
    seq![101u8, 110u8, 100u8, 108u8, 111u8, 111u8, 112u8]
}

pub open spec fn kw_endfacet() -> Seq<u8> {
    seq![101u8, 110u8, 100u8, 102u8, 97u8, 99u8, 101u8, 116u8]
}

/// The bits a number token reads as (meaningful when the token is a
/// number at all, see `f32_of_token`).
pub open spec fn tok_bits(t: Seq<u8>) -> u32 {
    match f32_of_token(t) {
        Some(b) => b,
        None => 0,
    }
}

/// A well-formed facet block: 21 tokens from position `i` on, the
/// keywords in their places and a number token in each of the twelve
/// coordinate places.
pub open spec fn spec_facet_ok(ts: Seq<Seq<u8>>, i: int) -> bool {
    &&& i + 21 <= ts.len()
    &&& ts[i] == kw_facet()
    &&& ts[i + 1] == kw_normal()
    &&& f32_of_token(ts[i + 2]) is Some
    &&& f32_of_token(ts[i + 3]) is Some
    &&& f32_of_token(ts[i + 4]) is Some
    &&& ts[i + 5] == kw_outer()
    &&& ts[i + 6] == kw_loop()
    &&& ts[i + 7] == kw_vertex()
    &&& f32_of_token(ts[i + 8]) is Some
    &&& f32_of_token(ts[i + 9]) is Some
    &&& f32_of_token(ts[i + 10]) is Some
    &&& ts[i + 11] == kw_vertex()
    &&& f32_of_token(ts[i + 12]) is Some
    &&& f32_of_token(ts[i + 13]) is Some
    &&& f32_of_token(ts[i + 14]) is Some
    &&& ts[i + 15] == kw_vertex()
    &&& f32_of_token(ts[i + 16]) is Some
    &&& f32_of_token(ts[i + 17]) is Some
    &&& f32_of_token(ts[i + 18]) is Some
    &&& ts[i + 19] == kw_endloop()
    &&& ts[i + 20] == kw_endfacet()
}

/// The triangle a well-formed facet block denotes.
pub open spec fn spec_facet_tri(ts: Seq<Seq<u8>>, i: int) -> Triangle {
    Triangle {
        normal: Vertex {
            x: tok_bits(ts[i + 2]),
            y: tok_bits(ts[i + 3]),
            z: tok_bits(ts[i + 4]),
        },
        v1: Vertex { x: tok_bits(ts[i + 8]), y: tok_bits(ts[i + 9]), z: tok_bits(ts[i + 10]) },
        v2: Vertex { x: tok_bits(ts[i + 12]), y: tok_bits(ts[i + 13]), z: tok_bits(ts[i + 14]) },
        v3: Vertex { x: tok_bits(ts[i + 16]), y: tok_bits(ts[i + 17]), z: tok_bits(ts[i + 18]) },
    }
}

/// Parse facet blocks from position `i` until a token other than
/// `facet` is ahead.  `None` on a malformed block; otherwise the
/// triangles and the position of the first unconsumed token.
pub open spec fn spec_parse_facets(ts: Seq<Seq<u8>>, i: int) -> Option<(Seq<Triangle>, int)>
    decreases ts.len() - i,
    when 0 <= i <= ts.len()
{
    if i < ts.len() && ts[i] == kw_facet() {
        if spec_facet_ok(ts, i) {
            match spec_parse_facets(ts, i + 21) {
                Some((rest, j)) => Some((seq![spec_facet_tri(ts, i)] + rest, j)),
                None => None,
            }
        } else {
            None
        }
    } else {
        Some((Seq::empty(), i))
    }
}

/// The whole grammar over a token list.
pub open spec fn spec_parse_tokens(ts: Seq<Seq<u8>>) -> Result<Seq<Triangle>, StlError> {
    if ts.len() == 0 || ts[0] != kw_solid() {
        Err(StlError::MalformedText)
    } else if ts.len() >= 2 && ts[1] != kw_facet() && ts[1] != kw_endsolid() {
        // named solid: the name must reappear after endsolid, and
        // nothing may follow it
        match spec_parse_facets(ts, 2) {
            Some((tris, j)) => {
                if j + 2 == ts.len() && ts[j] == kw_endsolid() && ts[j + 1] == ts[1] {
                    Ok(tris)
                } else {
                    Err(StlError::MalformedText)
                }
            },
            None => Err(StlError::MalformedText),
        }
    } else {
        // nameless solid: endsolid must be the last token
        match spec_parse_facets(ts, 1) {
            Some((tris, j)) => {
                if j + 1 == ts.len() && ts[j] == kw_endsolid() {
                    Ok(tris)
                } else {
                    Err(StlError::MalformedText)
                }
            },
            None => Err(StlError::MalformedText),
        }
    }
}

/// What the text parser returns on every input, byte for byte.
pub open spec fn spec_parse_text(s: Seq<u8>) -> Result<Seq<Triangle>, StlError> {
    spec_parse_tokens(tokenize_from(s, 0))
}

// ---------------------------------------------------------------
// Executable keyword tests
// ---------------------------------------------------------------

fn is_tok_solid(t: &Vec<u8>) -> (r: bool)
    ensures
        r == (t@ == kw_solid()),
{
    let r = t.len() == 5 && t[0] == 115 && t[1] == 111 && t[2] == 108 && t[3] == 105 && t[4]
        == 100;
    proof {
        if r {
            assert(t@ =~= kw_solid());
        }
    }
    r
}

fn is_tok_endsolid(t: &Vec<u8>) -> (r: bool)
    ensures
        r == (t@ == kw_endsolid()),
{
    let r = t.len() == 8 && t[0] == 101 && t[1] == 110 && t[2] == 100 && t[3] == 115 && t[4]
        == 111 && t[5] == 108 && t[6] == 105 && t[7] == 100;
    proof {
        if r {
            assert(t@ =~= kw_endsolid());
        }
    }
    r
}

fn is_tok_facet(t: &Vec<u8>) -> (r: bool)
    ensures
        r == (t@ == kw_facet()),
{
    let r = t.len() == 5 && t[0] == 102 && t[1] == 97 && t[2] == 99 && t[3] == 101 && t[4] == 116;
    proof {
        if r {
            assert(t@ =~= kw_facet());
        }
    }
    r
}

fn is_tok_normal(t: &Vec<u8>) -> (r: bool)
    ensures
        r == (t@ == kw_normal()),
{
    let r = t.len() == 6 && t[0] == 110 && t[1] == 111 && t[2] == 114 && t[3] == 109 && t[4] == 97
        && t[5] == 108;
    proof {
        if r {
            assert(t@ =~= kw_normal());
        }
    }
    r
}

fn is_tok_outer(t: &Vec<u8>) -> (r: bool)
    ensures
        r == (t@ == kw_outer()),
{
    let r = t.len() == 5 && t[0] == 111 && t[1] == 117 && t[2] == 116 && t[3] == 101 && t[4]
        == 114;
    proof {
        if r {
            assert(t@ =~= kw_outer());
        }
    }
    r
}

fn is_tok_loop(t: &Vec<u8>) -> (r: bool)
    ensures
        r == (t@ == kw_loop()),
{
    let r = t.len() == 4 && t[0] == 108 && t[1] == 111 && t[2] == 111 && t[3] == 112;
    proof {
        if r {
            assert(t@ =~= kw_loop());
        }
    }
    r
}

fn is_tok_vertex(t: &Vec<u8>) -> (r: bool)
    ensures
        r == (t@ == kw_vertex()),
{
    let r = t.len() == 6 && t[0] == 118 && t[1] == 101 && t[2] == 114 && t[3] == 116 && t[4]
        == 101 && t[5] == 120;
    proof {
        if r {
            assert(t@ =~= kw_vertex());
        }
    }
    r
}

fn is_tok_endloop(t: &Vec<u8>) -> (r: bool)
    ensures
        r == (t@ == kw_endloop()),
{
    let r = t.len() == 7 && t[0] == 101 && t[1] == 110 && t[2] == 100 && t[3] == 108 && t[4]
        == 111 && t[5] == 111 && t[6] == 112;
    proof {
        if r {
            assert(t@ =~= kw_endloop());
        }
    }
    r
}

fn is_tok_endfacet(t: &Vec<u8>) -> (r: bool)
    ensures
        r == (t@ == kw_endfacet()),
{
    let r = t.len() == 8 && t[0] == 101 && t[1] == 110 && t[2] == 100 && t[3] == 102 && t[4] == 97
        && t[5] == 99 && t[6] == 101 && t[7] == 116;
    proof {
        if r {
            assert(t@ =~= kw_endfacet());
        }
    }
    r
}

fn tok_eq(a: &Vec<u8>, b: &Vec<u8>) -> (r: bool)
    ensures
        r == (a@ == b@),
{
    if a.len() != b.len() {
        return false;
    }
    let mut i: usize = 0;
    while i < a.len()
        invariant
            0 <= i <= a@.len(),
            a@.len() == b@.len(),
            forall|k: int| 0 <= k < i ==> a@[k] == b@[k],
        decreases a@.len() - i,
    {
        if a[i] != b[i] {
            return false;
        }
        i = i + 1;
    }
    proof {
        assert(a@ =~= b@);
    }
    true
}

// ---------------------------------------------------------------
// The executable parser
// ---------------------------------------------------------------

/// `Some((acc + tris, j))` when `r == Some((tris, j))`.
pub open spec fn facets_prepend(acc: Seq<Triangle>, r: Option<(Seq<Triangle>, int)>) -> Option<
    (Seq<Triangle>, int),
> {
    match r {
        Some((rest, j)) => Some((acc + rest, j)),
        None => None,
    }
}

#[verifier::rlimit(100)]
fn parse_facets(toks: &Vec<Vec<u8>>, start: usize) -> (r: Result<(Vec<Triangle>, usize), StlError>)
    requires
        start <= toks@.len(),
    ensures
        ({
            let ts = toks_view(toks@);
            match r {
                Ok((tris, j)) => spec_parse_facets(ts, start as int) == Some(
                    (tris@, j as int),
                ) && start <= j <= ts.len(),
                Err(e) => e == StlError::MalformedText && spec_parse_facets(ts, start as int)
                    is None,
            }
        }),
{
    let ghost ts = toks_view(toks@);
    let mut out: Vec<Triangle> = Vec::new();
    let mut i: usize = start;
    proof {
        assert(out@ + spec_parse_facets(ts, start as int)->Some_0.0 =~= spec_parse_facets(
            ts,
            start as int,
        )->Some_0.0) by {
            assert(out@.len() == 0);
            if spec_parse_facets(ts, start as int) is Some {
                assert(out@ + spec_parse_facets(ts, start as int)->Some_0.0
                    =~= spec_parse_facets(ts, start as int)->Some_0.0);
            }
        }
        assert(spec_parse_facets(ts, start as int) == facets_prepend(
            out@,
            spec_parse_facets(ts, i as int),
        ));
    }
    while i < toks.len() && is_tok_facet(&toks[i])
        invariant
            ts == toks_view(toks@),
            start <= i <= ts.len(),
            ts.len() == toks@.len(),
            spec_parse_facets(ts, start as int) == facets_prepend(
                out@,
                spec_parse_facets(ts, i as int),
            ),
        decreases ts.len() - i,
    {
        proof {
            assert(ts[i as int] == toks@[i as int]@);
        }
        if toks.len() - i < 21 {
            proof {
                assert(!spec_facet_ok(ts, i as int));
                assert(spec_parse_facets(ts, i as int) is None);
            }
            return Err(StlError::MalformedText);
        }
        if !is_tok_normal(&toks[i + 1]) || !is_tok_outer(&toks[i + 5]) || !is_tok_loop(
            &toks[i + 6],
        ) || !is_tok_vertex(&toks[i + 7]) || !is_tok_vertex(&toks[i + 11]) || !is_tok_vertex(
            &toks[i + 15],
        ) || !is_tok_endloop(&toks[i + 19]) || !is_tok_endfacet(&toks[i + 20]) {
            proof {
                assert(!spec_facet_ok(ts, i as int));
                assert(spec_parse_facets(ts, i as int) is None);
            }
            return Err(StlError::MalformedText);
        }
        let nx = parse_f32_token(toks[i + 2].as_slice());
        let ny = parse_f32_token(toks[i + 3].as_slice());
        let nz = parse_f32_token(toks[i + 4].as_slice());
        let ax = parse_f32_token(toks[i + 8].as_slice());
        let ay = parse_f32_token(toks[i + 9].as_slice());
        let az = parse_f32_token(toks[i + 10].as_slice());
        let bx = parse_f32_token(toks[i + 12].as_slice());
        let by = parse_f32_token(toks[i + 13].as_slice());
        let bz = parse_f32_token(toks[i + 14].as_slice());
        let cx = parse_f32_token(toks[i + 16].as_slice());
        let cy = parse_f32_token(toks[i + 17].as_slice());
        let cz = parse_f32_token(toks[i + 18].as_slice());
        let tri = match (nx, ny, nz, ax, ay, az, bx, by, bz, cx, cy, cz) {
            (
                Some(nx),
                Some(ny),
                Some(nz),
                Some(ax),
                Some(ay),
                Some(az),
                Some(bx),
                Some(by),
                Some(bz),
                Some(cx),
                Some(cy),
                Some(cz),
            ) => Triangle {
                normal: Vertex { x: nx, y: ny, z: nz },
                v1: Vertex { x: ax, y: ay, z: az },
                v2: Vertex { x: bx, y: by, z: bz },
                v3: Vertex { x: cx, y: cy, z: cz },
            },
            _ => {
                proof {
                    assert(!spec_facet_ok(ts, i as int));
                    assert(spec_parse_facets(ts, i as int) is None);
                }
                return Err(StlError::MalformedText);
            },
        };
        proof {
            assert(spec_facet_ok(ts, i as int));
            assert(spec_facet_tri(ts, i as int) == tri);
            let rec = spec_parse_facets(ts, i as int + 21);
            assert(spec_parse_facets(ts, i as int) == facets_prepend(seq![tri], rec));
            match rec {
                Some((rest, j)) => {
                    assert(out@.push(tri) + rest =~= out@ + (seq![tri] + rest));
                },
                None => {},
            }
        }
        out.push(tri);
        i = i + 21;
    }
    proof {
        assert(spec_parse_facets(ts, i as int) == Some((Seq::<Triangle>::empty(), i as int)));
        assert(out@ + Seq::<Triangle>::empty() =~= out@);
    }
    Ok((out, i))
}

/// Parse the tagged text grammar.  The result is exactly
/// `spec_parse_text` on the input bytes: the facets' triangles in
/// declared order on success, `MalformedText` on any grammar
/// violation.
pub fn from_ascii(text: &[u8]) -> (r: Result<Solid, StlError>)
    ensures
        r matches Ok(solid) ==> spec_parse_text(text@) == Ok::<Seq<Triangle>, StlError>(solid@),
        r matches Err(e) ==> spec_parse_text(text@) == Err::<Seq<Triangle>, StlError>(e),
{
    let toks = tokenize(text);
    let ghost ts = toks_view(toks@);
    assert(ts == tokenize_from(text@, 0));
    if toks.len() == 0 {
        return Err(StlError::MalformedText);
    }
    proof {
        assert(ts[0] == toks@[0]@);
    }
    if !is_tok_solid(&toks[0]) {
        return Err(StlError::MalformedText);
    }
    let named = toks.len() >= 2 && !is_tok_facet(&toks[1]) && !is_tok_endsolid(&toks[1]);
    proof {
        if toks@.len() >= 2 {
            assert(ts[1] == toks@[1]@);
        }
    }
    if named {
        match parse_facets(&toks, 2) {
            Ok((tris, j)) => {
                proof {
                    if j + 2 == ts.len() {
                        assert(ts[j as int] == toks@[j as int]@);
                        assert(ts[j as int + 1] == toks@[j as int + 1]@);
                    }
                }
                if toks.len() - j == 2 && is_tok_endsolid(&toks[j]) && tok_eq(
                    &toks[j + 1],
                    &toks[1],
                ) {
                    Ok(tris)
                } else {
                    Err(StlError::MalformedText)
                }
            },
            Err(e) => Err(e),
        }
    } else {
        match parse_facets(&toks, 1) {
            Ok((tris, j)) => {
                proof {
                    if j + 1 == ts.len() {
                        assert(ts[j as int] == toks@[j as int]@);
                    }
                }
                if toks.len() - j == 1 && is_tok_endsolid(&toks[j]) {
                    Ok(tris)
                } else {
                    Err(StlError::MalformedText)
                }
            },
            Err(e) => Err(e),
        }
    }
}


// ---------------------------------------------------------------
// Rendering, and the round trip
// ---------------------------------------------------------------

/// A nonempty token holding no whitespace: what the tokenizer
/// recovers intact.
pub open spec fn good_token(t: Seq<u8>) -> bool {
    t.len() > 0 && forall|k: int| 0 <= k < t.len() ==> !is_ws(t[k])
}

/// The decimal rendering of `b` is a token the parser reads back as
/// exactly `b`; this is what `render_f32_bits` guarantees of every
/// finite value it prints.
pub open spec fn decimal_token_good(b: u32) -> bool {
    &&& decimal_of_bits(b).len() > 0
    &&& (forall|k: int|
        0 <= k < decimal_of_bits(b).len() ==> is_decimal_byte(decimal_of_bits(b)[k]))
    &&& f32_of_token(decimal_of_bits(b)) == Some(b)
}

/// All twelve coordinates of `t` survive the decimal round trip.
pub open spec fn tri_round_trips(t: Triangle) -> bool {
    &&& decimal_token_good(t.normal.x)
    &&& decimal_token_good(t.normal.y)
    &&& decimal_token_good(t.normal.z)
    &&& decimal_token_good(t.v1.x)
    &&& decimal_token_good(t.v1.y)
    &&& decimal_token_good(t.v1.z)
    &&& decimal_token_good(t.v2.x)
    &&& decimal_token_good(t.v2.y)
    &&& decimal_token_good(t.v2.z)
    &&& decimal_token_good(t.v3.x)
    &&& decimal_token_good(t.v3.y)
    &&& decimal_token_good(t.v3.z)
}

/// All twelve coordinates of `t` are finite values.
pub open spec fn tri_finite(t: Triangle) -> bool {
    &&& is_finite_bits(t.normal.x)
    &&& is_finite_bits(t.normal.y)
    &&& is_finite_bits(t.normal.z)
    &&& is_finite_bits(t.v1.x)
    &&& is_finite_bits(t.v1.y)
    &&& is_finite_bits(t.v1.z)
    &&& is_finite_bits(t.v2.x)
    &&& is_finite_bits(t.v2.y)
    &&& is_finite_bits(t.v2.z)
    &&& is_finite_bits(t.v3.x)
    &&& is_finite_bits(t.v3.y)
    &&& is_finite_bits(t.v3.z)
}

/// The 21 tokens of one facet block.
pub open spec fn spec_tri_tokens(t: Triangle) -> Seq<Seq<u8>> {
    seq![
        kw_facet(),
        kw_normal(),
        decimal_of_bits(t.normal.x),
        decimal_of_bits(t.normal.y),
        decimal_of_bits(t.normal.z),
        kw_outer(),
        kw_loop(),
        kw_vertex(),
        decimal_of_bits(t.v1.x),
        decimal_of_bits(t.v1.y),
        decimal_of_bits(t.v1.z),
        kw_vertex(),
        decimal_of_bits(t.v2.x),
        decimal_of_bits(t.v2.y),
        decimal_of_bits(t.v2.z),
        kw_vertex(),
        decimal_of_bits(t.v3.x),
        decimal_of_bits(t.v3.y),
        decimal_of_bits(t.v3.z),
        kw_endloop(),
        kw_endfacet(),
    ]
}

pub open spec fn spec_tris_tokens(ts: Seq<Triangle>) -> Seq<Seq<u8>>
    decreases ts.len(),
{
    if ts.len() == 0 {
        Seq::empty()
    } else {
        spec_tri_tokens(ts[0]) + spec_tris_tokens(ts.drop_first())
    }
}

/// The token list a rendered mesh consists of.
pub open spec fn spec_solid_tokens(ts: Seq<Triangle>) -> Seq<Seq<u8>> {
    seq![kw_solid()] + spec_tris_tokens(ts) + seq![kw_endsolid()]
}

/// Tokens joined by one line feed each.
pub open spec fn join_tokens(ws: Seq<Seq<u8>>) -> Seq<u8>
    decreases ws.len(),
{
    if ws.len() == 0 {
        Seq::empty()
    } else {
        ws[0] + seq![10u8] + join_tokens(ws.drop_first())
    }
}

/// The text rendering of a mesh, token by token.
pub open spec fn spec_render_text(ts: Seq<Triangle>) -> Seq<u8> {
    join_tokens(spec_solid_tokens(ts))
}

/// Every keyword is a nonempty run of non-whitespace bytes.
proof fn lemma_kw_solid_good()
    ensures
        good_token(kw_solid()),
{
    assert forall|k: int| 0 <= k < kw_solid().len() implies !is_ws(kw_solid()[k]) by {
        if k == 0 {
            assert(kw_solid()[0] == 115u8);
        }
        else if k == 1 {
            assert(kw_solid()[1] == 111u8);
        }
        else if k == 2 {
            assert(kw_solid()[2] == 108u8);
        }
        else if k == 3 {
            assert(kw_solid()[3] == 105u8);
        }
        else if k == 4 {
            assert(kw_solid()[4] == 100u8);
        } else {
        }
    }
}

proof fn lemma_kw_endsolid_good()
    ensures
        good_token(kw_endsolid()),
{
    assert forall|k: int| 0 <= k < kw_endsolid().len() implies !is_ws(kw_endsolid()[k]) by {
        if k == 0 {
            assert(kw_endsolid()[0] == 101u8);
        }
        else if k == 1 {
            assert(kw_endsolid()[1] == 110u8);
        }
        else if k == 2 {
            assert(kw_endsolid()[2] == 100u8);
        }
        else if k == 3 {
            assert(kw_endsolid()[3] == 115u8);
        }
        else if k == 4 {
            assert(kw_endsolid()[4] == 111u8);
        }
        else if k == 5 {
            assert(kw_endsolid()[5] == 108u8);
        }
        else if k == 6 {
            assert(kw_endsolid()[6] == 105u8);
        }
        else if k == 7 {
            assert(kw_endsolid()[7] == 100u8);
        } else {
        }
    }
}

proof fn lemma_kw_facet_good()
    ensures
        good_token(kw_facet()),
{
    assert forall|k: int| 0 <= k < kw_facet().len() implies !is_ws(kw_facet()[k]) by {
        if k == 0 {
            assert(kw_facet()[0] == 102u8);
        }
        else if k == 1 {
            assert(kw_facet()[1] == 97u8);
        }
        else if k == 2 {
            assert(kw_facet()[2] == 99u8);
        }
        else if k == 3 {
            assert(kw_facet()[3] == 101u8);
        }
        else if k == 4 {
            assert(kw_facet()[4] == 116u8);
        } else {
        }
    }
}

proof fn lemma_kw_normal_good()
    ensures
        good_token(kw_normal()),
{
    assert forall|k: int| 0 <= k < kw_normal().len() implies !is_ws(kw_normal()[k]) by {
        if k == 0 {
            assert(kw_normal()[0] == 110u8);
        }
        else if k == 1 {
            assert(kw_normal()[1] == 111u8);
        }
        else if k == 2 {
            assert(kw_normal()[2] == 114u8);
        }
        else if k == 3 {
            assert(kw_normal()[3] == 109u8);
        }
        else if k == 4 {
            assert(kw_normal()[4] == 97u8);
        }
        else if k == 5 {
            assert(kw_normal()[5] == 108u8);
        } else {
        }
    }
}

proof fn lemma_kw_outer_good()
    ensures
        good_token(kw_outer()),
{
    assert forall|k: int| 0 <= k < kw_outer().len() implies !is_ws(kw_outer()[k]) by {
        if k == 0 {
            assert(kw_outer()[0] == 111u8);
        }
        else if k == 1 {
            assert(kw_outer()[1] == 117u8);
        }
        else if k == 2 {
            assert(kw_outer()[2] == 116u8);
        }
        else if k == 3 {
            assert(kw_outer()[3] == 101u8);
        }
        else if k == 4 {
            assert(kw_outer()[4] == 114u8);
        } else {
        }
    }
}

proof fn lemma_kw_loop_good()
    ensures
        good_token(kw_loop()),
{
    assert forall|k: int| 0 <= k < kw_loop().len() implies !is_ws(kw_loop()[k]) by {
        if k == 0 {
            assert(kw_loop()[0] == 108u8);
        }
        else if k == 1 {
            assert(kw_loop()[1] == 111u8);
        }
        else if k == 2 {
            assert(kw_loop()[2] == 111u8);
        }
        else if k == 3 {
            assert(kw_loop()[3] == 112u8);
        } else {
        }
    }
}

proof fn lemma_kw_vertex_good()
    ensures
        good_token(kw_vertex()),
{
    assert forall|k: int| 0 <= k < kw_vertex().len() implies !is_ws(kw_vertex()[k]) by {
        if k == 0 {
            assert(kw_vertex()[0] == 118u8);
        }
        else if k == 1 {
            assert(kw_vertex()[1] == 101u8);
        }
        else if k == 2 {
            assert(kw_vertex()[2] == 114u8);
        }
        else if k == 3 {
            assert(kw_vertex()[3] == 116u8);
        }
        else if k == 4 {
            assert(kw_vertex()[4] == 101u8);
        }
        else if k == 5 {
            assert(kw_vertex()[5] == 120u8);
        } else {
        }
    }
}

proof fn lemma_kw_endloop_good()
    ensures
        good_token(kw_endloop()),
{
    assert forall|k: int| 0 <= k < kw_endloop().len() implies !is_ws(kw_endloop()[k]) by {
        if k == 0 {
            assert(kw_endloop()[0] == 101u8);
        }
        else if k == 1 {
            assert(kw_endloop()[1] == 110u8);
        }
        else if k == 2 {
            assert(kw_endloop()[2] == 100u8);
        }
        else if k == 3 {
            assert(kw_endloop()[3] == 108u8);
        }
        else if k == 4 {
            assert(kw_endloop()[4] == 111u8);
        }
        else if k == 5 {
            assert(kw_endloop()[5] == 111u8);
        }
        else if k == 6 {
            assert(kw_endloop()[6] == 112u8);
        } else {
        }
    }
}

proof fn lemma_kw_endfacet_good()
    ensures
        good_token(kw_endfacet()),
{
    assert forall|k: int| 0 <= k < kw_endfacet().len() implies !is_ws(kw_endfacet()[k]) by {
        if k == 0 {
            assert(kw_endfacet()[0] == 101u8);
        }
        else if k == 1 {
            assert(kw_endfacet()[1] == 110u8);
        }
        else if k == 2 {
            assert(kw_endfacet()[2] == 100u8);
        }
        else if k == 3 {
            assert(kw_endfacet()[3] == 102u8);
        }
        else if k == 4 {
            assert(kw_endfacet()[4] == 97u8);
        }
        else if k == 5 {
            assert(kw_endfacet()[5] == 99u8);
        }
        else if k == 6 {
            assert(kw_endfacet()[6] == 101u8);
        }
        else if k == 7 {
            assert(kw_endfacet()[7] == 116u8);
        } else {
        }
    }
}


/// Tokenizing a whitespace-joined list of good tokens recovers the
/// list: the bytes of `s` from `i` on are `join_tokens(ws)`.
proof fn lemma_tokenize_join(s: Seq<u8>, i: int, ws: Seq<Seq<u8>>)
    requires
        0 <= i <= s.len(),
        s.subrange(i, s.len() as int) == join_tokens(ws),
        forall|k: int| 0 <= k < ws.len() ==> good_token(#[trigger] ws[k]),
    ensures
        tokenize_from(s, i) == ws,
    decreases ws.len(),
{
    if ws.len() == 0 {
        assert(s.len() - i == 0);
        assert(next_non_ws(s, i) == i);
        assert(tokenize_from(s, i) =~= Seq::<Seq<u8>>::empty());
    } else {
        let w0 = ws[0];
        let rest = ws.drop_first();
        let join = join_tokens(ws);
        assert(join == w0 + seq![10u8] + join_tokens(rest));
        assert(s.len() - i == join.len());
        assert forall|k: int| 0 <= k < w0.len() implies s[i + k] == w0[k] by {
            assert(s.subrange(i, s.len() as int)[k] == s[i + k]);
            assert(join[k] == w0[k]);
        }
        assert(s.subrange(i, s.len() as int)[w0.len() as int] == s[i + w0.len()]);
        assert(join[w0.len() as int] == 10u8);
        assert(s[i + w0.len()] == 10u8);
        assert(good_token(w0));
        assert forall|m: int| i <= m < i + w0.len() implies !is_ws(s[m]) by {
            let k = m - i;
            assert(s[i + k] == w0[k]);
            assert(!is_ws(w0[k]));
        }
        assert(!is_ws(s[i]));
        lemma_next_non_ws_exact(s, i, i);
        lemma_token_end_exact(s, i, i + w0.len());
        assert(tokenize_from(s, i) == seq![s.subrange(i, i + w0.len())] + tokenize_from(
            s,
            i + w0.len(),
        ));
        assert(s.subrange(i, i + w0.len()) =~= w0);
        lemma_tokenize_ws_step(s, i + w0.len());
        assert(s.subrange(i + w0.len() + 1, s.len() as int) =~= join_tokens(rest)) by {
            assert forall|m: int| 0 <= m < s.len() - (i + w0.len() + 1) implies s.subrange(
                i + w0.len() + 1,
                s.len() as int,
            )[m] == join_tokens(rest)[m] by {
                assert(s.subrange(i, s.len() as int)[w0.len() + 1 + m] == s[i + w0.len() + 1 + m]);
                assert(join[w0.len() + 1 + m] == join_tokens(rest)[m]);
            }
        }
        assert(forall|k: int| 0 <= k < rest.len() ==> #[trigger] rest[k] == ws[k + 1]);
        lemma_tokenize_join(s, i + w0.len() + 1, rest);
        assert(tokenize_from(s, i) =~= ws);
    }
}

/// The length and the pointwise contents of the facet-token list.
proof fn lemma_tris_tokens_len(ts: Seq<Triangle>)
    ensures
        spec_tris_tokens(ts).len() == 21 * ts.len(),
    decreases ts.len(),
{
    if ts.len() > 0 {
        lemma_tris_tokens_len(ts.drop_first());
    }
}

proof fn lemma_tris_tokens_index(ts: Seq<Triangle>, q: int, r: int)
    requires
        0 <= q < ts.len(),
        0 <= r < 21,
    ensures
        spec_tris_tokens(ts).len() == 21 * ts.len(),
        spec_tris_tokens(ts)[21 * q + r] == spec_tri_tokens(ts[q])[r],
    decreases q,
{
    lemma_tris_tokens_len(ts);
    lemma_tris_tokens_len(ts.drop_first());
    if q == 0 {
        assert(spec_tris_tokens(ts)[r] == spec_tri_tokens(ts[0])[r]);
    } else {
        lemma_tris_tokens_index(ts.drop_first(), q - 1, r);
        assert(spec_tris_tokens(ts)[21 * q + r] == spec_tris_tokens(ts.drop_first())[21 * (q - 1)
            + r]);
        assert(ts.drop_first()[q - 1] == ts[q]);
    }
}

/// Every token of a facet block is good, given that the block's
/// coordinates round-trip.
proof fn lemma_tri_tokens_good(t: Triangle)
    requires
        tri_round_trips(t),
    ensures
        forall|d: int| 0 <= d < 21 ==> good_token(#[trigger] spec_tri_tokens(t)[d]),
{
    assert forall|d: int| 0 <= d < 21 implies good_token(#[trigger] spec_tri_tokens(t)[d]) by {
            if d == 0 {
                lemma_kw_facet_good();
                assert(spec_tri_tokens(t)[0] == kw_facet());
            }
            else if d == 1 {
                lemma_kw_normal_good();
                assert(spec_tri_tokens(t)[1] == kw_normal());
            }
            else if d == 2 {
                assert(spec_tri_tokens(t)[2] == decimal_of_bits(t.normal.x));
            }
            else if d == 3 {
                assert(spec_tri_tokens(t)[3] == decimal_of_bits(t.normal.y));
            }
            else if d == 4 {
                assert(spec_tri_tokens(t)[4] == decimal_of_bits(t.normal.z));
            }
            else if d == 5 {
                lemma_kw_outer_good();
                assert(spec_tri_tokens(t)[5] == kw_outer());
            }
            else if d == 6 {
                lemma_kw_loop_good();
                assert(spec_tri_tokens(t)[6] == kw_loop());
            }
            else if d == 7 {
                lemma_kw_vertex_good();
                assert(spec_tri_tokens(t)[7] == kw_vertex());
            }
            else if d == 8 {
                assert(spec_tri_tokens(t)[8] == decimal_of_bits(t.v1.x));
            }
            else if d == 9 {
                assert(spec_tri_tokens(t)[9] == decimal_of_bits(t.v1.y));
            }
            else if d == 10 {
                assert(spec_tri_tokens(t)[10] == decimal_of_bits(t.v1.z));
            }
            else if d == 11 {
                lemma_kw_vertex_good();
                assert(spec_tri_tokens(t)[11] == kw_vertex());
            }
            else if d == 12 {
                assert(spec_tri_tokens(t)[12] == decimal_of_bits(t.v2.x));
            }
            else if d == 13 {
                assert(spec_tri_tokens(t)[13] == decimal_of_bits(t.v2.y));
            }
            else if d == 14 {
                assert(spec_tri_tokens(t)[14] == decimal_of_bits(t.v2.z));
            }
            else if d == 15 {
                lemma_kw_vertex_good();
                assert(spec_tri_tokens(t)[15] == kw_vertex());
            }
            else if d == 16 {
                assert(spec_tri_tokens(t)[16] == decimal_of_bits(t.v3.x));
            }
            else if d == 17 {
                assert(spec_tri_tokens(t)[17] == decimal_of_bits(t.v3.y));
            }
            else if d == 18 {
                assert(spec_tri_tokens(t)[18] == decimal_of_bits(t.v3.z));
            }
            else if d == 19 {
                lemma_kw_endloop_good();
                assert(spec_tri_tokens(t)[19] == kw_endloop());
            }
            else if d == 20 {
                lemma_kw_endfacet_good();
                assert(spec_tri_tokens(t)[20] == kw_endfacet());
            } else {
            }
    }
}

/// Parsing the rendered facet blocks consumes them all and stops at
/// the closing tag, recovering the triangles bit for bit.
#[verifier::rlimit(100)]
proof fn lemma_parse_facets_render(tk: Seq<Seq<u8>>, tris: Seq<Triangle>, i: int)
    requires
        0 <= i,
        i + 21 * tris.len() < tk.len(),
        forall|k: int| 0 <= k < tris.len() ==> tri_round_trips(#[trigger] tris[k]),
        forall|d: int|
            0 <= d < 21 * tris.len() ==> #[trigger] tk[i + d] == spec_tris_tokens(tris)[d],
        tk[i + 21 * tris.len()] == kw_endsolid(),
    ensures
        spec_parse_facets(tk, i) == Some((tris, i + 21 * tris.len())),
    decreases tris.len(),
{
    lemma_tris_tokens_len(tris);
    if tris.len() == 0 {
        assert(tk[i] == kw_endsolid());
        assert(kw_endsolid().len() == 8 && kw_facet().len() == 5);
        assert(tk[i] != kw_facet());
        assert(spec_parse_facets(tk, i) == Some((Seq::<Triangle>::empty(), i)));
        assert(Seq::<Triangle>::empty() =~= tris);
    } else {
        let t0 = tris[0];
        let rest = tris.drop_first();
        lemma_tris_tokens_len(rest);
        assert forall|d: int| 0 <= d < 21 implies tk[i + d] == spec_tri_tokens(t0)[d] by {
            assert(tk[i + d] == spec_tris_tokens(tris)[d]);
            assert(spec_tris_tokens(tris)[d] == spec_tri_tokens(t0)[d]);
        }
        assert(tri_round_trips(t0));
        assert(tk[i + 0] == spec_tri_tokens(t0)[0]);
        assert(tk[i] == kw_facet());
        assert(spec_facet_ok(tk, i)) by {
            assert(tk[i + 1] == spec_tri_tokens(t0)[1]);
            assert(tk[i + 2] == spec_tri_tokens(t0)[2]);
            assert(tk[i + 3] == spec_tri_tokens(t0)[3]);
            assert(tk[i + 4] == spec_tri_tokens(t0)[4]);
            assert(tk[i + 5] == spec_tri_tokens(t0)[5]);
            assert(tk[i + 6] == spec_tri_tokens(t0)[6]);
            assert(tk[i + 7] == spec_tri_tokens(t0)[7]);
            assert(tk[i + 8] == spec_tri_tokens(t0)[8]);
            assert(tk[i + 9] == spec_tri_tokens(t0)[9]);
            assert(tk[i + 10] == spec_tri_tokens(t0)[10]);
            assert(tk[i + 11] == spec_tri_tokens(t0)[11]);
            assert(tk[i + 12] == spec_tri_tokens(t0)[12]);
            assert(tk[i + 13] == spec_tri_tokens(t0)[13]);
            assert(tk[i + 14] == spec_tri_tokens(t0)[14]);
            assert(tk[i + 15] == spec_tri_tokens(t0)[15]);
            assert(tk[i + 16] == spec_tri_tokens(t0)[16]);
            assert(tk[i + 17] == spec_tri_tokens(t0)[17]);
            assert(tk[i + 18] == spec_tri_tokens(t0)[18]);
            assert(tk[i + 19] == spec_tri_tokens(t0)[19]);
            assert(tk[i + 20] == spec_tri_tokens(t0)[20]);
        }
        assert(spec_facet_tri(tk, i) == t0);
        assert forall|d: int|
            0 <= d < 21 * rest.len() implies #[trigger] tk[(i + 21) + d] == spec_tris_tokens(
            rest,
        )[d] by {
            assert(tk[i + (21 + d)] == spec_tris_tokens(tris)[21 + d]);
            assert(spec_tris_tokens(tris)[21 + d] == spec_tris_tokens(rest)[d]);
        }
        assert(forall|k: int| 0 <= k < rest.len() ==> #[trigger] rest[k] == tris[k + 1]);
        assert(tk[(i + 21) + 21 * rest.len()] == kw_endsolid());
        lemma_parse_facets_render(tk, rest, i + 21);
        assert(spec_parse_facets(tk, i) == Some(
            (seq![t0] + rest, (i + 21) + 21 * rest.len()),
        ));
        assert(seq![t0] + rest =~= tris);
    }
}

/// The round trip through the text grammar: rendering a mesh whose
/// coordinates survive the decimal round trip, then parsing the
/// rendered bytes, yields the very same triangles.
pub proof fn lemma_text_round_trip(tris: Seq<Triangle>)
    requires
        forall|k: int| 0 <= k < tris.len() ==> tri_round_trips(#[trigger] tris[k]),
    ensures
        spec_parse_text(spec_render_text(tris)) == Ok::<Seq<Triangle>, StlError>(tris),
{
    let tk = spec_solid_tokens(tris);
    let s = spec_render_text(tris);
    let n = tris.len() as int;
    lemma_tris_tokens_len(tris);
    assert(tk.len() == 2 + 21 * n);
    lemma_kw_solid_good();
    lemma_kw_endsolid_good();
    assert forall|k: int| 0 <= k < tk.len() implies good_token(#[trigger] tk[k]) by {
        if k == 0 {
            assert(tk[0] == kw_solid());
        } else if k == tk.len() - 1 {
            assert(tk[k] == kw_endsolid());
        } else {
            let d = k - 1;
            let q = d / 21;
            let r = d % 21;
            assert(d == 21 * q + r && 0 <= r < 21 && 0 <= q < n) by (nonlinear_arith)
                requires
                    0 <= d < 21 * n,
                    q == d / 21,
                    r == d % 21,
            ;
            lemma_tris_tokens_index(tris, q, r);
            lemma_tri_tokens_good(tris[q]);
            assert(tk[k] == spec_tris_tokens(tris)[d]);
            assert(spec_tris_tokens(tris)[d] == spec_tri_tokens(tris[q])[r]);
        }
    }
    assert(s.subrange(0, s.len() as int) =~= s);
    lemma_tokenize_join(s, 0, tk);
    assert(tokenize_from(s, 0) == tk);
    assert(tk[0] == kw_solid());
    if n > 0 {
        lemma_tris_tokens_index(tris, 0, 0);
        assert(tk[1] == spec_tris_tokens(tris)[0]);
        assert(tk[1] == kw_facet());
    } else {
        assert(tk[1] == kw_endsolid());
    }
    assert forall|d: int| 0 <= d < 21 * n implies #[trigger] tk[1 + d] == spec_tris_tokens(
        tris,
    )[d] by {
        assert(tk[1 + d] == spec_tris_tokens(tris)[d]);
    }
    assert(tk[1 + 21 * n] == kw_endsolid());
    lemma_parse_facets_render(tk, tris, 1);
    assert(spec_parse_tokens(tk) == Ok::<Seq<Triangle>, StlError>(tris));
}

// ---------------------------------------------------------------
// The executable renderer
// ---------------------------------------------------------------

fn kw_solid_vec() -> (r: Vec<u8>)
    ensures
        r@ == kw_solid(),
{
    let mut v: Vec<u8> = Vec::new();
    v.push(115);
    v.push(111);
    v.push(108);
    v.push(105);
    v.push(100);
    proof {
        assert(v@ =~= kw_solid());
    }
    v
}

fn kw_endsolid_vec() -> (r: Vec<u8>)
    ensures
        r@ == kw_endsolid(),
{
    let mut v: Vec<u8> = Vec::new();
    v.push(101);
    v.push(110);
    v.push(100);
    v.push(115);
    v.push(111);
    v.push(108);
    v.push(105);
    v.push(100);
    proof {
        assert(v@ =~= kw_endsolid());
    }
    v
}

fn kw_facet_vec() -> (r: Vec<u8>)
    ensures
        r@ == kw_facet(),
{
    let mut v: Vec<u8> = Vec::new();
    v.push(102);
    v.push(97);
    v.push(99);
    v.push(101);
    v.push(116);
    proof {
        assert(v@ =~= kw_facet());
    }
    v
}

fn kw_normal_vec() -> (r: Vec<u8>)
    ensures
        r@ == kw_normal(),
{
    let mut v: Vec<u8> = Vec::new();
    v.push(110);
    v.push(111);
    v.push(114);
    v.push(109);
    v.push(97);
    v.push(108);
    proof {
        assert(v@ =~= kw_normal());
    }
    v
}

fn kw_outer_vec() -> (r: Vec<u8>)
    ensures
        r@ == kw_outer(),
{
    let mut v: Vec<u8> = Vec::new();
    v.push(111);
    v.push(117);
    v.push(116);
    v.push(101);
    v.push(114);
    proof {
        assert(v@ =~= kw_outer());
    }
    v
}

fn kw_loop_vec() -> (r: Vec<u8>)
    ensures
        r@ == kw_loop(),
{
    let mut v: Vec<u8> = Vec::new();
    v.push(108);
    v.push(111);
    v.push(111);
    v.push(112);
    proof {
        assert(v@ =~= kw_loop());
    }
    v
}

fn kw_vertex_vec() -> (r: Vec<u8>)
    ensures
        r@ == kw_vertex(),
{
    let mut v: Vec<u8> = Vec::new();
    v.push(118);
    v.push(101);
    v.push(114);
    v.push(116);
    v.push(101);
    v.push(120);
    proof {
        assert(v@ =~= kw_vertex());
    }
    v
}

fn kw_endloop_vec() -> (r: Vec<u8>)
    ensures
        r@ == kw_endloop(),
{
    let mut v: Vec<u8> = Vec::new();
    v.push(101);
    v.push(110);
    v.push(100);
    v.push(108);
    v.push(111);
    v.push(111);
    v.push(112);
    proof {
        assert(v@ =~= kw_endloop());
    }
    v
}

fn kw_endfacet_vec() -> (r: Vec<u8>)
    ensures
        r@ == kw_endfacet(),
{
    let mut v: Vec<u8> = Vec::new();
    v.push(101);
    v.push(110);
    v.push(100);
    v.push(102);
    v.push(97);
    v.push(99);
    v.push(101);
    v.push(116);
    proof {
        assert(v@ =~= kw_endfacet());
    }
    v
}


fn push_word(out: &mut Vec<u8>, w: &Vec<u8>)
    ensures
        final(out)@ == old(out)@ + w@ + seq![10u8],
{
    let ghost out0 = out@;
    let mut i: usize = 0;
    while i < w.len()
        invariant
            0 <= i <= w@.len(),
            out@ == out0 + w@.subrange(0, i as int),
        decreases w@.len() - i,
    {
        out.push(w[i]);
        proof {
            assert(out@ =~= out0 + w@.subrange(0, i as int + 1));
        }
        i = i + 1;
    }
    out.push(10);
    proof {
        assert(w@.subrange(0, w@.len() as int) =~= w@);
        assert(out@ =~= out0 + w@ + seq![10u8]);
    }
}

/// Appending one more token to a joined list appends its bytes and a
/// line feed.
proof fn lemma_join_snoc(ws: Seq<Seq<u8>>, w: Seq<u8>)
    ensures
        join_tokens(ws.push(w)) == join_tokens(ws) + w + seq![10u8],
    decreases ws.len(),
{
    if ws.len() == 0 {
        assert(ws.push(w).drop_first() =~= Seq::<Seq<u8>>::empty());
        assert(ws.push(w)[0] == w);
        assert(join_tokens(ws.push(w)) == w + seq![10u8] + join_tokens(Seq::empty()));
        assert(w + seq![10u8] + Seq::<u8>::empty() =~= Seq::<u8>::empty() + w + seq![10u8]);
    } else {
        lemma_join_snoc(ws.drop_first(), w);
        assert(ws.push(w)[0] == ws[0]);
        assert(ws.push(w).drop_first() =~= ws.drop_first().push(w));
        assert(join_tokens(ws.push(w)) == ws[0] + seq![10u8] + (join_tokens(ws.drop_first()) + w
            + seq![10u8]));
        assert(ws[0] + seq![10u8] + (join_tokens(ws.drop_first()) + w + seq![10u8]) =~= (ws[0]
            + seq![10u8] + join_tokens(ws.drop_first())) + w + seq![10u8]);
    }
}

/// Emit the 21 tokens of one facet block.
#[verifier::rlimit(100)]
fn push_tri(out: &mut Vec<u8>, tokens: Ghost<Seq<Seq<u8>>>, tri: &Triangle) -> (r: Ghost<
    Seq<Seq<u8>>,
>)
    requires
        old(out)@ == join_tokens(tokens@),
        tri_finite(*tri),
    ensures
        r@ == tokens@ + spec_tri_tokens(*tri),
        final(out)@ == join_tokens(r@),
        tri_round_trips(*tri),
{
    let ghost mut ws = tokens@;
    let w1 = kw_facet_vec();
    push_word(out, &w1);
    proof {
        lemma_join_snoc(ws, w1@);
        ws = ws.push(kw_facet());
    }
    let w2 = kw_normal_vec();
    push_word(out, &w2);
    proof {
        lemma_join_snoc(ws, w2@);
        ws = ws.push(kw_normal());
    }
    let w3 = render_f32_bits(tri.normal.x);
    push_word(out, &w3);
    proof {
        lemma_join_snoc(ws, w3@);
        ws = ws.push(decimal_of_bits(tri.normal.x));
    }
    let w4 = render_f32_bits(tri.normal.y);
    push_word(out, &w4);
    proof {
        lemma_join_snoc(ws, w4@);
        ws = ws.push(decimal_of_bits(tri.normal.y));
    }
    let w5 = render_f32_bits(tri.normal.z);
    push_word(out, &w5);
    proof {
        lemma_join_snoc(ws, w5@);
        ws = ws.push(decimal_of_bits(tri.normal.z));
    }
    let w6 = kw_outer_vec();
    push_word(out, &w6);
    proof {
        lemma_join_snoc(ws, w6@);
        ws = ws.push(kw_outer());
    }
    let w7 = kw_loop_vec();
    push_word(out, &w7);
    proof {
        lemma_join_snoc(ws, w7@);
        ws = ws.push(kw_loop());
    }
    let w8 = kw_vertex_vec();
    push_word(out, &w8);
    proof {
        lemma_join_snoc(ws, w8@);
        ws = ws.push(kw_vertex());
    }
    let w9 = render_f32_bits(tri.v1.x);
    push_word(out, &w9);
    proof {
        lemma_join_snoc(ws, w9@);
        ws = ws.push(decimal_of_bits(tri.v1.x));
    }
    let w10 = render_f32_bits(tri.v1.y);
    push_word(out, &w10);
    proof {
        lemma_join_snoc(ws, w10@);
        ws = ws.push(decimal_of_bits(tri.v1.y));
    }
    let w11 = render_f32_bits(tri.v1.z);
    push_word(out, &w11);
    proof {
        lemma_join_snoc(ws, w11@);
        ws = ws.push(decimal_of_bits(tri.v1.z));
    }
    let w12 = kw_vertex_vec();
    push_word(out, &w12);
    proof {
        lemma_join_snoc(ws, w12@);
        ws = ws.push(kw_vertex());
    }
    let w13 = render_f32_bits(tri.v2.x);
    push_word(out, &w13);
    proof {
        lemma_join_snoc(ws, w13@);
        ws = ws.push(decimal_of_bits(tri.v2.x));
    }
    let w14 = render_f32_bits(tri.v2.y);
    push_word(out, &w14);
    proof {
        lemma_join_snoc(ws, w14@);
        ws = ws.push(decimal_of_bits(tri.v2.y));
    }
    let w15 = render_f32_bits(tri.v2.z);
    push_word(out, &w15);
    proof {
        lemma_join_snoc(ws, w15@);
        ws = ws.push(decimal_of_bits(tri.v2.z));
    }
    let w16 = kw_vertex_vec();
    push_word(out, &w16);
    proof {
        lemma_join_snoc(ws, w16@);
        ws = ws.push(kw_vertex());
    }
    let w17 = render_f32_bits(tri.v3.x);
    push_word(out, &w17);
    proof {
        lemma_join_snoc(ws, w17@);
        ws = ws.push(decimal_of_bits(tri.v3.x));
    }
    let w18 = render_f32_bits(tri.v3.y);
    push_word(out, &w18);
    proof {
        lemma_join_snoc(ws, w18@);
        ws = ws.push(decimal_of_bits(tri.v3.y));
    }
    let w19 = render_f32_bits(tri.v3.z);
    push_word(out, &w19);
    proof {
        lemma_join_snoc(ws, w19@);
        ws = ws.push(decimal_of_bits(tri.v3.z));
    }
    let w20 = kw_endloop_vec();
    push_word(out, &w20);
    proof {
        lemma_join_snoc(ws, w20@);
        ws = ws.push(kw_endloop());
    }
    let w21 = kw_endfacet_vec();
    push_word(out, &w21);
    proof {
        lemma_join_snoc(ws, w21@);
        ws = ws.push(kw_endfacet());
    }
    proof {
        assert(ws =~= tokens@ + spec_tri_tokens(*tri));
    }
    Ghost(ws)
}

/// Render a mesh into the text grammar, one token per line.  The
/// result is exactly `spec_render_text`, and — the round trip —
/// parsing it back yields the same mesh, bit for bit.
pub fn to_ascii(solid: &Solid) -> (r: Vec<u8>)
    requires
        forall|k: int| 0 <= k < solid@.len() ==> tri_finite(#[trigger] solid@[k]),
    ensures
        r@ == spec_render_text(solid@),
        spec_parse_text(r@) == Ok::<Seq<Triangle>, StlError>(solid@),
{
    let mut out: Vec<u8> = Vec::new();
    let ghost mut ws: Seq<Seq<u8>> = Seq::empty();
    let w0 = kw_solid_vec();
    push_word(&mut out, &w0);
    proof {
        lemma_join_snoc(ws, w0@);
        ws = ws.push(kw_solid());
        assert(ws =~= seq![kw_solid()] + spec_tris_tokens(solid@.take(0)));
    }
    let mut t: usize = 0;
    while t < solid.len()
        invariant
            0 <= t <= solid@.len(),
            forall|k: int| 0 <= k < solid@.len() ==> tri_finite(#[trigger] solid@[k]),
            forall|k: int| 0 <= k < t ==> tri_round_trips(#[trigger] solid@[k]),
            ws == seq![kw_solid()] + spec_tris_tokens(solid@.take(t as int)),
            out@ == join_tokens(ws),
        decreases solid@.len() - t,
    {
        let g = push_tri(&mut out, Ghost(ws), &solid[t]);
        proof {
            ws = g@;
            lemma_tris_tokens_take_snoc(solid@, t as int);
            assert(ws =~= seq![kw_solid()] + spec_tris_tokens(solid@.take(t as int + 1)));
        }
        t = t + 1;
    }
    let w9 = kw_endsolid_vec();
    push_word(&mut out, &w9);
    proof {
        lemma_join_snoc(ws, w9@);
        ws = ws.push(kw_endsolid());
        assert(solid@.take(solid@.len() as int) =~= solid@);
        assert(ws =~= spec_solid_tokens(solid@));
        lemma_text_round_trip(solid@);
    }
    out
}


/// Whether all twelve coordinates of `t` are finite, decided on the
/// bits.
pub fn tri_is_finite(t: &Triangle) -> (r: bool)
    ensures
        r == tri_finite(*t),
{
    finite_bits(t.normal.x) && finite_bits(t.normal.y) && finite_bits(t.normal.z) && finite_bits(
        t.v1.x,
    ) && finite_bits(t.v1.y) && finite_bits(t.v1.z) && finite_bits(t.v2.x) && finite_bits(t.v2.y)
        && finite_bits(t.v2.z) && finite_bits(t.v3.x) && finite_bits(t.v3.y) && finite_bits(
        t.v3.z,
    )
}

/// Render a mesh into the text grammar after checking that every
/// coordinate is finite; `None` when one is not, since an infinity or
/// a NaN has no token in the grammar.
pub fn try_to_ascii(solid: &Solid) -> (r: Option<Vec<u8>>)
    ensures
        ({
            match r {
                Some(bytes) => (forall|k: int|
                    0 <= k < solid@.len() ==> tri_finite(#[trigger] solid@[k])) && bytes@
                    == spec_render_text(solid@) && spec_parse_text(bytes@) == Ok::<
                    Seq<Triangle>,
                    StlError,
                >(solid@),
                None => !(forall|k: int|
                    0 <= k < solid@.len() ==> tri_finite(#[trigger] solid@[k])),
            }
        }),
{
    let mut k: usize = 0;
    while k < solid.len()
        invariant
            0 <= k <= solid@.len(),
            forall|j: int| 0 <= j < k ==> tri_finite(#[trigger] solid@[j]),
        decreases solid@.len() - k,
    {
        if !tri_is_finite(&solid[k]) {
            return None;
        }
        k = k + 1;
    }
    Some(to_ascii(solid))
}

/// Rendering one more triangle appends its 21 tokens.
proof fn lemma_tris_tokens_take_snoc(ts: Seq<Triangle>, i: int)
    requires
        0 <= i < ts.len(),
    ensures
        spec_tris_tokens(ts.take(i + 1)) == spec_tris_tokens(ts.take(i)) + spec_tri_tokens(ts[i]),
    decreases i,
{
    let a = ts.take(i + 1);
    if i == 0 {
        assert(a.drop_first() =~= Seq::empty());
        assert(spec_tris_tokens(ts.take(0)) =~= Seq::<Seq<u8>>::empty());
        assert(spec_tris_tokens(a) == spec_tri_tokens(a[0]) + spec_tris_tokens(Seq::empty()));
        assert(spec_tri_tokens(ts[0]) + Seq::<Seq<u8>>::empty() =~= spec_tri_tokens(ts[0]));
        assert(Seq::<Seq<u8>>::empty() + spec_tri_tokens(ts[0]) =~= spec_tri_tokens(ts[0]));
    } else {
        let t0 = spec_tri_tokens(ts[0]);
        let x = spec_tris_tokens(ts.drop_first().take(i - 1));
        let ti = spec_tri_tokens(ts[i]);
        lemma_tris_tokens_take_snoc(ts.drop_first(), i - 1);
        assert(a[0] == ts[0]);
        assert(a.drop_first() =~= ts.drop_first().take(i));
        assert(ts.take(i).drop_first() =~= ts.drop_first().take(i - 1));
        assert(ts.drop_first()[i - 1] == ts[i]);
        assert(spec_tris_tokens(a) == t0 + (x + ti));
        assert(spec_tris_tokens(ts.take(i)) == t0 + x);
        assert(t0 + (x + ti) =~= (t0 + x) + ti);
    }
}

} // verus!
