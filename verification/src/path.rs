//! The path normalizer.
//!
//! A structural path is a string of dot-separated field names and bracketed
//! array markers. Normalization replaces every bracketed run of ASCII
//! digits `[N]` by the literal `[*]`; non-numeric brackets (`[key]`) and
//! the empty bracket (`[]`) are left verbatim. The dot separator joins
//! successive field names; a bracket marker attaches to the preceding
//! segment without a dot (`body[*].text`).
//!
//! The scan keeps a single "in bracket" flag and a pending segment buffer:
//! `[` flushes the pending segment (with a leading dot if the result is
//! non-empty) and opens a bracket; `]` closes it and flushes the bracket
//! through segment normalization; `.` outside a bracket flushes the
//! pending segment; any other character extends the buffer.

use vstd::prelude::*;
use vstd::string::StrSliceExecFns;

verus! {

/// An ASCII decimal digit.
pub open spec fn is_digit_char(c: char) -> bool {
    48 <= c as u32 <= 57
}

/// True of a segment of the shape `[digits]` with at least one digit.
pub open spec fn is_digit_bracket(seg: Seq<char>) -> bool {
    &&& seg.len() >= 3
    &&& seg[0] == '['
    &&& seg[seg.len() - 1] == ']'
    &&& forall|i: int| 1 <= i < seg.len() - 1 ==> is_digit_char(#[trigger] seg[i])
}

/// Canonical form of one segment: a bracketed digit run collapses to
/// `[*]`; everything else is left unchanged.
pub open spec fn norm_seg(seg: Seq<char>) -> Seq<char> {
    if is_digit_bracket(seg) {
        seq!['[', '*', ']']
    } else {
        seg
    }
}

/// `s` with a leading dot when `r` is non-empty, appended to `r`.
pub open spec fn join_dot(r: Seq<char>, s: Seq<char>) -> Seq<char> {
    if r.len() == 0 {
        s
    } else {
        r + seq!['.'] + s
    }
}

/// The scanner state: the emitted output, the pending segment buffer, and
/// whether the scan stands inside a bracket.
pub struct NormState {
    pub result: Seq<char>,
    pub seg: Seq<char>,
    pub in_bracket: bool,
}

/// The scanner's initial state.
pub open spec fn norm_init() -> NormState {
    NormState { result: Seq::empty(), seg: Seq::empty(), in_bracket: false }
}

/// One step of the scan.
pub open spec fn norm_step(st: NormState, c: char) -> NormState {
    if c == '[' {
        NormState {
            result: if st.seg.len() == 0 {
                st.result
            } else {
                join_dot(st.result, st.seg)
            },
            seg: seq!['['],
            in_bracket: true,
        }
    } else if c == ']' {
        NormState {
            result: st.result + norm_seg(st.seg.push(']')),
            seg: Seq::empty(),
            in_bracket: false,
        }
    } else if c == '.' && !st.in_bracket {
        NormState {
            result: if st.seg.len() == 0 {
                st.result
            } else {
                join_dot(st.result, st.seg)
            },
            seg: Seq::empty(),
            in_bracket: st.in_bracket,
        }
    } else {
        NormState { result: st.result, seg: st.seg.push(c), in_bracket: st.in_bracket }
    }
}

/// The scan over a whole character sequence.
pub open spec fn norm_scan(st: NormState, s: Seq<char>) -> NormState
    decreases s.len(),
{
    if s.len() == 0 {
        st
    } else {
        norm_step(norm_scan(st, s.drop_last()), s.last())
    }
}

/// The final flush: any pending segment joins the output with a dot.
pub open spec fn norm_flush(st: NormState) -> Seq<char> {
    if st.seg.len() == 0 {
        st.result
    } else {
        join_dot(st.result, st.seg)
    }
}

/// The normalized form of a path.
pub open spec fn norm(s: Seq<char>) -> Seq<char> {
    norm_flush(norm_scan(norm_init(), s))
}

/// No bracket characters anywhere in `s`.
pub open spec fn no_brackets(s: Seq<char>) -> bool {
    forall|i: int| 0 <= i < s.len() ==> #[trigger] s[i] != '[' && s[i] != ']'
}

/// A plain segment: no brackets and no dots.
pub open spec fn plain_seg(s: Seq<char>) -> bool {
    no_brackets(s) && forall|i: int| 0 <= i < s.len() ==> #[trigger] s[i] != '.'
}

/// A path is bracket-well-formed when `[` never opens inside a bracket,
/// `]` never stands outside one, and no bracket is left open at the end.
/// This is the shape of every path the pair extractor emits and of every
/// well-formed query path; on other inputs the normalizer still runs but
/// its output is unspecified.
pub open spec fn bracket_ok(s: Seq<char>) -> bool {
    &&& forall|i: int|
        0 <= i < s.len() ==> ((#[trigger] s[i]) == '[' ==> !norm_scan(
            norm_init(),
            s.take(i),
        ).in_bracket)
    &&& forall|i: int|
        0 <= i < s.len() ==> ((#[trigger] s[i]) == ']' ==> norm_scan(
            norm_init(),
            s.take(i),
        ).in_bracket)
    &&& !norm_scan(norm_init(), s).in_bracket
}

/// The scanner's state invariant on bracket-well-formed input: the
/// pending segment is plain outside a bracket and a dot-free-of-brackets
/// `[`-run inside one, and the emitted output rescans to itself, ending
/// outside a bracket with a plain pending segment.
pub open spec fn seg_ok(st: NormState) -> bool {
    if st.in_bracket {
        st.seg.len() >= 1 && st.seg[0] == '[' && no_brackets(st.seg.skip(1))
    } else {
        plain_seg(st.seg)
    }
}

/// The emitted output rescans to a state that flushes back to it.
pub open spec fn result_ok(st: NormState) -> bool {
    let rho = norm_scan(norm_init(), st.result);
    &&& !rho.in_bracket
    &&& plain_seg(rho.seg)
    &&& norm_flush(rho) == st.result
}

/// The full scanner invariant.
pub open spec fn scan_inv(st: NormState) -> bool {
    seg_ok(st) && result_ok(st)
}

/// Scanning distributes over concatenation.
proof fn lemma_scan_app(st: NormState, a: Seq<char>, b: Seq<char>)
    ensures
        norm_scan(st, a + b) == norm_scan(norm_scan(st, a), b),
    decreases b.len(),
{
    if b.len() == 0 {
        assert(a + b =~= a);
    } else {
        assert((a + b).drop_last() =~= a + b.drop_last());
        assert((a + b).last() == b.last());
        lemma_scan_app(st, a, b.drop_last());
    }
}

/// A single character scans as one step.
proof fn lemma_scan_one(st: NormState, c: char)
    ensures
        norm_scan(st, seq![c]) == norm_step(st, c),
{
    assert(seq![c].drop_last() =~= Seq::<char>::empty());
    assert(norm_scan(st, Seq::<char>::empty()) == st);
    assert(seq![c].last() == c);
    assert(norm_scan(st, seq![c]) == norm_step(norm_scan(st, seq![c].drop_last()), c));
}

/// Characters that are not brackets and (outside a bracket) not dots only
/// extend the pending segment.
proof fn lemma_scan_plain(st: NormState, x: Seq<char>)
    requires
        no_brackets(x),
        st.in_bracket || plain_seg(x),
    ensures
        norm_scan(st, x).result == st.result,
        norm_scan(st, x).seg == st.seg + x,
        norm_scan(st, x).in_bracket == st.in_bracket,
    decreases x.len(),
{
    if x.len() == 0 {
        assert(st.seg + x =~= st.seg);
    } else {
        lemma_scan_plain(st, x.drop_last());
        let prev = norm_scan(st, x.drop_last());
        let c = x.last();
        assert(c != '[' && c != ']');
        assert(norm_scan(st, x) == norm_step(prev, c));
        assert(prev.seg.push(c) =~= st.seg + x);
    }
}

/// Segment normalization is idempotent.
proof fn lemma_norm_seg_idempotent(x: Seq<char>)
    ensures
        norm_seg(norm_seg(x)) == norm_seg(x),
{
    if is_digit_bracket(x) {
        assert(!is_digit_char(seq!['[', '*', ']'][1]));
    }
}

/// Scanning `join_dot(r, b)` from scratch, for a rescannable output `r`
/// and a plain non-empty segment `b`, lands exactly on the state that
/// holds `r` emitted and `b` pending.
proof fn lemma_scan_join(r: Seq<char>, b: Seq<char>)
    requires
        !norm_scan(norm_init(), r).in_bracket,
        plain_seg(norm_scan(norm_init(), r).seg),
        norm_flush(norm_scan(norm_init(), r)) == r,
        plain_seg(b),
        b.len() > 0,
    ensures
        norm_scan(norm_init(), join_dot(r, b)).result == r,
        norm_scan(norm_init(), join_dot(r, b)).seg == b,
        !norm_scan(norm_init(), join_dot(r, b)).in_bracket,
{
    let rho = norm_scan(norm_init(), r);
    if r.len() == 0 {
        assert(join_dot(r, b) == b);
        assert(rho == norm_init()) by {
            assert(norm_flush(rho) == r);
            if rho.seg.len() == 0 {
                assert(rho.result == r);
                assert(rho.result =~= Seq::<char>::empty());
                assert(rho.seg =~= Seq::<char>::empty());
            } else {
                assert(join_dot(rho.result, rho.seg).len() >= rho.seg.len());
                assert(false);
            }
        }
        lemma_scan_plain(norm_init(), b);
        assert(Seq::<char>::empty() + b =~= b);
    } else {
        assert(join_dot(r, b) == r + seq!['.'] + b);
        lemma_scan_app(norm_init(), r + seq!['.'], b);
        lemma_scan_app(norm_init(), r, seq!['.']);
        assert((r + seq!['.']) + b =~= r + seq!['.'] + b);
        lemma_scan_one(rho, '.');
        let rho2 = norm_step(rho, '.');
        assert(rho2.result == norm_flush(rho));
        assert(rho2.result == r);
        assert(rho2.seg =~= Seq::<char>::empty());
        assert(!rho2.in_bracket);
        lemma_scan_plain(rho2, b);
        assert(rho2.seg + b =~= b);
    }
}

/// One scanner step preserves the invariant on bracket-well-formed input.
proof fn lemma_inv_step(st: NormState, c: char)
    requires
        scan_inv(st),
        c == '[' ==> !st.in_bracket,
        c == ']' ==> st.in_bracket,
    ensures
        scan_inv(norm_step(st, c)),
{
    let new = norm_step(st, c);
    let rho = norm_scan(norm_init(), st.result);
    if c == '[' || (c == '.' && !st.in_bracket) {
        // The pending segment (plain, since we stand outside a bracket)
        // flushes into the output with a joining dot.
        if st.seg.len() == 0 {
            assert(new.result == st.result);
        } else {
            assert(new.result == join_dot(st.result, st.seg));
            lemma_scan_join(st.result, st.seg);
        }
        if c == '[' {
            assert(new.seg =~= seq!['[']);
            assert(new.seg.skip(1) =~= Seq::<char>::empty());
        }
    } else if c == ']' {
        // The bracket group closes: it reaches the output through
        // segment normalization, and rescanning replays it unchanged.
        let b = st.seg;
        let t = norm_seg(b.push(']'));
        let mid: Seq<char> = if is_digit_bracket(b.push(']')) {
            seq!['*']
        } else {
            b.skip(1)
        };
        assert(t =~= seq!['['] + mid + seq![']']) by {
            if is_digit_bracket(b.push(']')) {
                assert(t =~= seq!['['] + seq!['*'] + seq![']']);
            } else {
                assert(b.push(']') =~= seq!['['] + b.skip(1) + seq![']']);
            }
        }
        assert(no_brackets(mid)) by {
            if !is_digit_bracket(b.push(']')) {
                assert(forall|i: int|
                    0 <= i < b.skip(1).len() ==> #[trigger] b.skip(1)[i] == b[i + 1]);
            }
        }
        lemma_norm_seg_idempotent(b.push(']'));
        lemma_scan_app(norm_init(), st.result, t);
        // Replay t from rho: '[' flushes rho to its own output r, the
        // middle extends the bracket, ']' re-normalizes it to t itself.
        lemma_scan_app(rho, seq!['['] + mid, seq![']']);
        lemma_scan_app(rho, seq!['['], mid);
        assert((seq!['['] + mid) + seq![']'] =~= t);
        lemma_scan_one(rho, '[');
        let rho2 = norm_step(rho, '[');
        assert(rho2.result == norm_flush(rho));
        assert(rho2.seg =~= seq!['[']);
        lemma_scan_plain(rho2, mid);
        let rho3 = norm_scan(rho2, mid);
        assert(rho3.seg =~= seq!['['] + mid);
        lemma_scan_one(rho3, ']');
        let rho4 = norm_step(rho3, ']');
        assert(rho3.seg.push(']') =~= t);
        assert(rho4.result == st.result + norm_seg(t));
        assert(rho4.result == st.result + t);
        assert(rho4.result == new.result);
        assert(rho4.seg =~= Seq::<char>::empty());
        assert(norm_flush(rho4) == rho4.result);
    } else {
        // An ordinary character extends the pending segment.
        assert(new.result == st.result);
        if st.in_bracket {
            assert(new.seg.skip(1) =~= st.seg.skip(1).push(c));
        }
    }
}

/// The invariant holds after scanning any prefix of bracket-well-formed
/// input.
proof fn lemma_inv_prefix(s: Seq<char>, i: int)
    requires
        bracket_ok(s),
        0 <= i <= s.len(),
    ensures
        scan_inv(norm_scan(norm_init(), s.take(i))),
    decreases i,
{
    if i == 0 {
        assert(s.take(0) =~= Seq::<char>::empty());
        let rho = norm_scan(norm_init(), Seq::<char>::empty());
        assert(rho == norm_init());
        assert(norm_flush(rho) =~= Seq::<char>::empty());
    } else {
        lemma_inv_prefix(s, i - 1);
        assert(s.take(i).drop_last() =~= s.take(i - 1));
        assert(s.take(i).last() == s[i - 1]);
        lemma_inv_step(norm_scan(norm_init(), s.take(i - 1)), s[i - 1]);
    }
}

/// Normalization is idempotent on bracket-well-formed paths: normalizing
/// a normalized path returns it unchanged.
pub proof fn lemma_normalize_idempotent(s: Seq<char>)
    requires
        bracket_ok(s),
    ensures
        norm(norm(s)) == norm(s),
{
    lemma_inv_prefix(s, s.len() as int);
    assert(s.take(s.len() as int) =~= s);
    let st = norm_scan(norm_init(), s);
    let o = norm_flush(st);
    if st.seg.len() == 0 {
        assert(o == st.result);
    } else {
        assert(o == join_dot(st.result, st.seg));
        lemma_scan_join(st.result, st.seg);
        let rho = norm_scan(norm_init(), o);
        assert(norm_flush(rho) == join_dot(st.result, st.seg));
    }
}

/// An emission-shaped path: rescanning it ends outside a bracket with a
/// plain pending segment and flushes back to the path itself. Such a path
/// is its own normalized form.
pub open spec fn emitted_ok(p: Seq<char>) -> bool {
    let rho = norm_scan(norm_init(), p);
    &&& !rho.in_bracket
    &&& plain_seg(rho.seg)
    &&& norm_flush(rho) == p
}

/// An emission-shaped path is a fixpoint of normalization.
pub proof fn lemma_emitted_ok_norm(p: Seq<char>)
    requires
        emitted_ok(p),
    ensures
        norm(p) == p,
{
}

/// The empty root path is emission-shaped.
pub proof fn lemma_emitted_ok_empty()
    ensures
        emitted_ok(Seq::<char>::empty()),
{
    assert(norm_scan(norm_init(), Seq::<char>::empty()) == norm_init());
    assert(norm_flush(norm_init()) =~= Seq::<char>::empty());
}

/// Joining a plain, non-empty field name below an emission-shaped prefix
/// with a dot keeps the path emission-shaped.
pub proof fn lemma_emitted_ok_join(p: Seq<char>, key: Seq<char>)
    requires
        emitted_ok(p),
        plain_seg(key),
        key.len() > 0,
    ensures
        emitted_ok(join_dot(p, key)),
{
    lemma_scan_join(p, key);
}

/// Attaching the `[*]` marker to an emission-shaped prefix keeps the path
/// emission-shaped.
pub proof fn lemma_emitted_ok_star(p: Seq<char>)
    requires
        emitted_ok(p),
    ensures
        emitted_ok(p + seq!['[', '*', ']']),
{
    let rho = norm_scan(norm_init(), p);
    let star = seq!['[', '*', ']'];
    lemma_scan_app(norm_init(), p, star);
    lemma_scan_app(rho, seq!['[', '*'], seq![']']);
    lemma_scan_app(rho, seq!['['], seq!['*']);
    assert((seq!['[', '*']) + seq![']'] =~= star);
    assert((seq!['[']) + seq!['*'] =~= seq!['[', '*']);
    lemma_scan_one(rho, '[');
    let rho2 = norm_step(rho, '[');
    assert(rho2.result == norm_flush(rho));
    lemma_scan_one(rho2, '*');
    let rho3 = norm_step(rho2, '*');
    assert(rho3.seg =~= seq!['[', '*']);
    lemma_scan_one(rho3, ']');
    let rho4 = norm_step(rho3, ']');
    assert(rho3.seg.push(']') =~= star);
    assert(!is_digit_bracket(star)) by {
        assert(!is_digit_char(star[1]));
    }
    assert(rho4.result == p + star);
    assert(rho4.seg =~= Seq::<char>::empty());
}

/// Relies on `String`'s `FromIterator<char>` implementation: collecting an
/// iterator of characters yields the string of exactly those characters,
/// in order.
#[verifier::external_body]
fn chars_to_string(v: &Vec<char>) -> (r: String)
    ensures
        r@ == v@,
{
    v.iter().collect()
}

/// The characters of a string slice, as a vector.
fn chars_of_str(s: &str) -> (r: Vec<char>)
    ensures
        r@ == s@,
{
    let n = s.unicode_len();
    let mut r: Vec<char> = Vec::new();
    let mut i: usize = 0;
    while i < n
        invariant
            i <= n,
            n == s@.len(),
            r@ == s@.take(i as int),
        decreases n - i,
    {
        r.push(s.get_char(i));
        i += 1;
        proof {
            assert(r@ =~= s@.take(i as int));
        }
    }
    proof {
        assert(r@ =~= s@);
    }
    r
}

/// Whether `c` is an ASCII decimal digit.
fn is_digit_exec(c: char) -> (r: bool)
    ensures
        r == is_digit_char(c),
{
    let u = c as u32;
    48 <= u && u <= 57
}

/// Canonical form of one segment, over character vectors.
fn norm_seg_chars(seg: Vec<char>) -> (r: Vec<char>)
    ensures
        r@ == norm_seg(seg@),
{
    let n = seg.len();
    if n >= 3 && seg[0] == '[' && seg[n - 1] == ']' {
        let mut i: usize = 1;
        let mut all_digits = true;
        while i < n - 1
            invariant
                1 <= i <= n - 1,
                n == seg@.len(),
                n >= 3,
                all_digits == (forall|j: int| 1 <= j < i ==> is_digit_char(#[trigger] seg@[j])),
            decreases n - 1 - i,
        {
            if !is_digit_exec(seg[i]) {
                all_digits = false;
            }
            i += 1;
        }
        if all_digits {
            let mut star: Vec<char> = Vec::new();
            star.push('[');
            star.push('*');
            star.push(']');
            proof {
                assert(is_digit_bracket(seg@));
                assert(star@ =~= seq!['[', '*', ']']);
            }
            return star;
        }
        proof {
            let j = choose|j: int| 1 <= j < n - 1 && !is_digit_char(#[trigger] seg@[j]);
            assert(!is_digit_bracket(seg@));
        }
    }
    seg
}

/// The scan, over character vectors.
fn normalize_chars(input: &Vec<char>) -> (r: Vec<char>)
    ensures
        r@ == norm(input@),
{
    let ghost s = input@;
    let mut result: Vec<char> = Vec::new();
    let mut seg: Vec<char> = Vec::new();
    let mut in_bracket = false;
    let mut i: usize = 0;
    while i < input.len()
        invariant
            i <= input.len(),
            s == input@,
            norm_scan(norm_init(), s.take(i as int)) == (NormState {
                result: result@,
                seg: seg@,
                in_bracket,
            }),
        decreases input.len() - i,
    {
        let ghost st = NormState { result: result@, seg: seg@, in_bracket };
        proof {
            assert(s.take(i + 1).drop_last() =~= s.take(i as int));
            assert(s.take(i + 1).last() == s[i as int]);
            assert(norm_scan(norm_init(), s.take(i + 1)) == norm_step(st, s[i as int]));
        }
        let c = input[i];
        if c == '[' {
            if seg.len() > 0 {
                if result.len() > 0 {
                    result.push('.');
                }
                result.append(&mut seg);
            }
            seg.push('[');
            in_bracket = true;
            proof {
                assert(result@ =~= (norm_step(st, c).result));
                assert(seg@ =~= (norm_step(st, c).seg));
            }
        } else if c == ']' {
            seg.push(']');
            in_bracket = false;
            proof {
                assert(seg@ =~= st.seg.push(']'));
            }
            let mut normalized = norm_seg_chars(seg);
            result.append(&mut normalized);
            seg = Vec::new();
            proof {
                assert(result@ =~= (norm_step(st, c).result));
                assert(seg@ =~= (norm_step(st, c).seg));
            }
        } else if c == '.' && !in_bracket {
            if seg.len() > 0 {
                if result.len() > 0 {
                    result.push('.');
                }
                result.append(&mut seg);
            }
            proof {
                assert(result@ =~= (norm_step(st, c).result));
                assert(seg@ =~= (norm_step(st, c).seg));
            }
        } else {
            seg.push(c);
            proof {
                assert(seg@ =~= st.seg.push(c));
            }
        }
        i += 1;
    }
    proof {
        assert(s.take(i as int) =~= s);
    }
    if seg.len() > 0 {
        if result.len() > 0 {
            result.push('.');
        }
        result.append(&mut seg);
    }
    proof {
        assert(result@ =~= norm(s));
    }
    result
}

/// Normalize one path segment: `[0]` and `[123]` become `[*]`; `title`,
/// `[key]` and `[]` are returned unchanged.
pub fn normalize_path_segment(segment: &str) -> (r: String)
    ensures
        r@ == norm_seg(segment@),
{
    let cs = chars_of_str(segment);
    let out = norm_seg_chars(cs);
    chars_to_string(&out)
}

/// Normalize a full query path: every bracketed run of digits collapses to
/// `[*]`, so `body[0].children[1].text` becomes `body[*].children[*].text`.
pub fn normalize_query_path(path: &str) -> (r: String)
    ensures
        r@ == norm(path@),
{
    let cs = chars_of_str(path);
    let out = normalize_chars(&cs);
    chars_to_string(&out)
}

} // verus!
