//! Character-sequence utilities shared by the serializer and the telemetry
//! decoders: decimal and hexadecimal formatting and parsing, whitespace
//! trimming, line and field splitting, and the raster payload normalization.

use vstd::prelude::*;

verus! {

/// The decimal digit character for a value `0 <= d <= 9`.
pub open spec fn spec_digit(d: int) -> char {
    ((d + 48) as u8) as char
}

/// The decimal text of a nonnegative integer, most significant digit first,
/// with no sign and no leading zero (except for the single digit of 0 itself).
pub open spec fn spec_dec(n: int) -> Seq<char>
    decreases n,
{
    if n < 10 {
        seq![spec_digit(n)]
    } else {
        spec_dec(n / 10).push(spec_digit(n % 10))
    }
}

/// Appends the decimal text of `n` to `out`.
pub fn push_dec_u64(out: &mut Vec<char>, n: u64)
    ensures
        final(out)@ == old(out)@ + spec_dec(n as int),
    decreases n,
{
    if n < 10 {
        let d: u8 = (n as u8) + 48;
        out.push(d as char);
        assert(out@ =~= old(out)@ + spec_dec(n as int));
    } else {
        push_dec_u64(out, n / 10);
        let d: u8 = ((n % 10) as u8) + 48;
        out.push(d as char);
        assert(out@ =~= old(out)@ + spec_dec(n as int));
    }
}

/// The uppercase hexadecimal digit character for a value `0 <= d <= 15`.
pub open spec fn spec_hex_digit(d: int) -> char {
    if d < 10 {
        ((d + 48) as u8) as char
    } else {
        ((d + 55) as u8) as char
    }
}

/// The two uppercase hexadecimal characters of one byte, high nibble first.
pub open spec fn spec_hex2(b: u8) -> Seq<char> {
    seq![spec_hex_digit(b as int / 16), spec_hex_digit(b as int % 16)]
}

/// Appends the two hexadecimal characters of `b` to `out`.
pub fn push_hex2(out: &mut Vec<char>, b: u8)
    ensures
        final(out)@ == old(out)@ + spec_hex2(b),
{
    let hi: u8 = b / 16;
    let lo: u8 = b % 16;
    let hc: u8 = if hi < 10 { hi + 48 } else { hi + 55 };
    let lc: u8 = if lo < 10 { lo + 48 } else { lo + 55 };
    out.push(hc as char);
    out.push(lc as char);
    assert(out@ =~= old(out)@ + spec_hex2(b));
}

/// The separators that the raster payload normalization strips: commas,
/// spaces and line breaks.
pub open spec fn is_raster_sep(c: char) -> bool {
    c == ',' || c == ' ' || c == '\n' || c == '\r'
}

/// ASCII uppercasing of one character; anything outside `a..=z` is unchanged.
pub open spec fn spec_ascii_upper(c: char) -> char {
    if 97 <= c as u32 && c as u32 <= 122 {
        (((c as u32) - 32) as u8) as char
    } else {
        c
    }
}

/// The normalized form of a raster hex payload: separators stripped and the
/// remaining characters uppercased.
pub open spec fn spec_norm_hex(s: Seq<char>) -> Seq<char> {
    s.filter(|c: char| !is_raster_sep(c)).map_values(|c: char| spec_ascii_upper(c))
}

/// Uppercasing never produces a separator from a non-separator, and is
/// idempotent on every character.
proof fn lemma_ascii_upper_char(c: char)
    ensures
        !is_raster_sep(c) ==> !is_raster_sep(spec_ascii_upper(c)),
        spec_ascii_upper(spec_ascii_upper(c)) == spec_ascii_upper(c),
{
}

/// A sequence all of whose characters pass the predicate is its own filtrate.
proof fn lemma_filter_all(s: Seq<char>, pred: spec_fn(char) -> bool)
    requires
        forall|i: int| 0 <= i < s.len() ==> #[trigger] pred(s[i]),
    ensures
        s.filter(pred) == s,
    decreases s.len(),
{
    reveal(Seq::filter);
    if s.len() == 0 {
        assert(s.filter(pred) =~= s);
    } else {
        lemma_filter_all(s.drop_last(), pred);
        assert(s.filter(pred) =~= s);
    }
}

/// Normalizing an already-normalized payload changes nothing.
///
/// Law: for every raster hex payload, normalization is idempotent.
pub proof fn lemma_norm_hex_idempotent(s: Seq<char>)
    ensures
        spec_norm_hex(spec_norm_hex(s)) == spec_norm_hex(s),
{
    let kept = |c: char| !is_raster_sep(c);
    let up = |c: char| spec_ascii_upper(c);
    let n = spec_norm_hex(s);
    assert(n.len() == s.filter(kept).len());
    assert forall|i: int| 0 <= i < n.len() implies #[trigger] kept(n[i]) by {
        s.lemma_filter_pred(kept, i);
        lemma_ascii_upper_char(s.filter(kept)[i]);
    }
    lemma_filter_all(n, kept);
    assert forall|i: int| 0 <= i < n.len() implies #[trigger] n.map_values(up)[i] == n[i] by {
        s.lemma_filter_pred(kept, i);
        lemma_ascii_upper_char(s.filter(kept)[i]);
    }
    assert(spec_norm_hex(n) =~= n);
}

/// ASCII-uppercases one character.
pub fn ascii_upper(c: char) -> (r: char)
    ensures
        r == spec_ascii_upper(c),
{
    let u = c as u32;
    if 97 <= u && u <= 122 {
        ((u - 32) as u8) as char
    } else {
        c
    }
}

/// Whether `c` is one of the separators the normalization strips.
pub fn is_raster_sep_char(c: char) -> (r: bool)
    ensures
        r == is_raster_sep(c),
{
    c == ',' || c == ' ' || c == '\n' || c == '\r'
}

/// Strips commas, spaces and line breaks from `v` and uppercases the rest.
pub fn normalize_hex(v: &Vec<char>) -> (r: Vec<char>)
    ensures
        r@ == spec_norm_hex(v@),
{
    let kept = Ghost(|c: char| !is_raster_sep(c));
    let up = Ghost(|c: char| spec_ascii_upper(c));
    let mut out: Vec<char> = Vec::new();
    let mut i: usize = 0;
    while i < v.len()
        invariant
            i <= v@.len(),
            kept@ == (|c: char| !is_raster_sep(c)),
            up@ == (|c: char| spec_ascii_upper(c)),
            out@ == v@.take(i as int).filter(kept@).map_values(up@),
        decreases v@.len() - i,
    {
        let c = v[i];
        proof {
            assert(v@.take(i + 1) =~= v@.take(i as int) + seq![v@[i as int]]);
            Seq::filter_distributes_over_add(v@.take(i as int), seq![v@[i as int]], kept@);
            reveal_with_fuel(Seq::filter, 2);
            assert(seq![v@[i as int]].drop_last() =~= Seq::<char>::empty());
            if kept@(c) {
                assert(seq![c].filter(kept@) =~= seq![c]);
                assert(v@.take(i + 1).filter(kept@).map_values(up@) =~= out@.push(
                    spec_ascii_upper(c),
                ));
            } else {
                assert(seq![c].filter(kept@) =~= Seq::<char>::empty());
                assert(v@.take(i + 1).filter(kept@).map_values(up@) =~= out@);
            }
        }
        if !is_raster_sep_char(c) {
            out.push(ascii_upper(c));
        }
        i = i + 1;
    }
    proof {
        assert(v@.take(v@.len() as int) =~= v@);
    }
    out
}

/// The ASCII whitespace characters that trimming and tokenizing recognize.
pub open spec fn is_space(c: char) -> bool {
    c == ' ' || c == '\t' || c == '\n' || c == '\r'
}

/// Whether `c` is ASCII whitespace.
pub fn is_space_char(c: char) -> (r: bool)
    ensures
        r == is_space(c),
{
    c == ' ' || c == '\t' || c == '\n' || c == '\r'
}

/// `s` with leading whitespace removed.
pub open spec fn spec_trim_start(s: Seq<char>) -> Seq<char>
    decreases s.len(),
{
    if s.len() > 0 && is_space(s[0]) {
        spec_trim_start(s.drop_first())
    } else {
        s
    }
}

/// `s` with trailing whitespace removed.
pub open spec fn spec_trim_end(s: Seq<char>) -> Seq<char>
    decreases s.len(),
{
    if s.len() > 0 && is_space(s.last()) {
        spec_trim_end(s.drop_last())
    } else {
        s
    }
}

/// `s` with leading and trailing whitespace removed.
pub open spec fn spec_trim(s: Seq<char>) -> Seq<char> {
    spec_trim_end(spec_trim_start(s))
}

proof fn lemma_trim_start_range(s: Seq<char>, a: int)
    requires
        0 <= a <= s.len(),
        forall|k: int| 0 <= k < a ==> is_space(#[trigger] s[k]),
        a == s.len() || !is_space(s[a]),
    ensures
        spec_trim_start(s) == s.subrange(a, s.len() as int),
    decreases a,
{
    if a == 0 {
        assert(s.subrange(0, s.len() as int) =~= s);
    } else {
        let t = s.drop_first();
        assert(forall|k: int| 0 <= k < a - 1 ==> is_space(#[trigger] t[k]));
        lemma_trim_start_range(t, a - 1);
        assert(t.subrange(a - 1, t.len() as int) =~= s.subrange(a, s.len() as int));
    }
}

proof fn lemma_trim_end_range(s: Seq<char>, b: int)
    requires
        0 <= b <= s.len(),
        forall|k: int| b <= k < s.len() ==> is_space(#[trigger] s[k]),
        b == 0 || !is_space(s[b - 1]),
    ensures
        spec_trim_end(s) == s.take(b),
    decreases s.len() - b,
{
    if b == s.len() {
        assert(s.take(b) =~= s);
    } else {
        let t = s.drop_last();
        lemma_trim_end_range(t, b);
        assert(t.take(b) =~= s.take(b));
    }
}

/// Removes leading and trailing ASCII whitespace.
pub fn trim(v: &Vec<char>) -> (r: Vec<char>)
    ensures
        r@ == spec_trim(v@),
{
    let n = v.len();
    let mut a: usize = 0;
    while a < n && is_space_char(v[a])
        invariant
            0 <= a <= n == v@.len(),
            forall|k: int| 0 <= k < a ==> is_space(#[trigger] v@[k]),
        decreases n - a,
    {
        a = a + 1;
    }
    let mut b: usize = n;
    while b > a && is_space_char(v[b - 1])
        invariant
            a <= b <= n == v@.len(),
            forall|k: int| b <= k < n ==> is_space(#[trigger] v@[k]),
        decreases b,
    {
        b = b - 1;
    }
    proof {
        lemma_trim_start_range(v@, a as int);
        let t = v@.subrange(a as int, v@.len() as int);
        if b == a {
            lemma_trim_end_range(t, 0);
        } else {
            lemma_trim_end_range(t, b - a);
        }
        assert(t.take(b - a) =~= v@.subrange(a as int, b as int));
    }
    sub_vec(v, a, b)
}

/// Copies the characters of `v` in positions `a..b`.
pub fn sub_vec(v: &Vec<char>, a: usize, b: usize) -> (r: Vec<char>)
    requires
        a <= b <= v@.len(),
    ensures
        r@ == v@.subrange(a as int, b as int),
{
    let mut out: Vec<char> = Vec::new();
    let mut i: usize = a;
    while i < b
        invariant
            a <= i <= b <= v@.len(),
            out@ == v@.subrange(a as int, i as int),
        decreases b - i,
    {
        out.push(v[i]);
        proof {
            assert(v@.subrange(a as int, i + 1) =~= v@.subrange(a as int, i as int).push(
                v@[i as int],
            ));
        }
        i = i + 1;
    }
    out
}

/// The pieces of `s` between separator characters, in order. A separator at
/// the very start or end contributes an empty piece, as does an empty `s`:
/// the result always holds one piece more than `s` holds separators.
pub open spec fn spec_split_any(s: Seq<char>, seps: Set<char>) -> Seq<Seq<char>>
    decreases s.len(),
{
    if s.len() == 0 {
        seq![Seq::<char>::empty()]
    } else if seps.contains(s[0]) {
        seq![Seq::<char>::empty()] + spec_split_any(s.drop_first(), seps)
    } else {
        let rest = spec_split_any(s.drop_first(), seps);
        seq![seq![s[0]] + rest[0]] + rest.drop_first()
    }
}

pub proof fn lemma_split_any_len(s: Seq<char>, seps: Set<char>)
    ensures
        spec_split_any(s, seps).len() >= 1,
    decreases s.len(),
{
    if s.len() > 0 {
        lemma_split_any_len(s.drop_first(), seps);
    }
}

/// Splitting at one separator character.
pub open spec fn spec_split(s: Seq<char>, sep: char) -> Seq<Seq<char>> {
    spec_split_any(s, Set::empty().insert(sep))
}

proof fn lemma_split_any_step(s: Seq<char>, i: int, seps: Set<char>)
    requires
        0 <= i < s.len(),
    ensures
        seps.contains(s[i]) ==> spec_split_any(s.subrange(i, s.len() as int), seps) == seq![
            Seq::<char>::empty(),
        ] + spec_split_any(s.subrange(i + 1, s.len() as int), seps),
        !seps.contains(s[i]) ==> spec_split_any(s.subrange(i, s.len() as int), seps) == ({
            let rest = spec_split_any(s.subrange(i + 1, s.len() as int), seps);
            seq![seq![s[i]] + rest[0]] + rest.drop_first()
        }),
{
    let t = s.subrange(i, s.len() as int);
    assert(t.len() > 0);
    assert(t[0] == s[i]);
    assert(t.drop_first() =~= s.subrange(i + 1, s.len() as int));
}

/// Splits `v` at every occurrence of `sep`.
pub fn split_char(v: &Vec<char>, sep: char) -> (r: Vec<Vec<char>>)
    ensures
        r.deep_view() == spec_split(v@, sep),
{
    let ghost seps = Set::empty().insert(sep);
    let n = v.len();
    let mut fin: Vec<Vec<char>> = Vec::new();
    let mut cur: Vec<char> = Vec::new();
    let mut i: usize = 0;
    proof {
        lemma_split_any_len(v@, seps);
        assert(v@.subrange(0, v@.len() as int) =~= v@);
        let rest = spec_split_any(v@, seps);
        assert(fin.deep_view() + (seq![cur@ + rest[0]] + rest.drop_first()) =~~= rest);
    }
    while i < n
        invariant
            0 <= i <= n == v@.len(),
            seps == Set::empty().insert(sep),
            spec_split_any(v@, seps) == fin.deep_view() + ({
                let rest = spec_split_any(v@.subrange(i as int, v@.len() as int), seps);
                seq![cur@ + rest[0]] + rest.drop_first()
            }),
        decreases n - i,
    {
        let c = v[i];
        proof {
            lemma_split_any_step(v@, i as int, seps);
            lemma_split_any_len(v@.subrange(i + 1, v@.len() as int), seps);
            let rest1 = spec_split_any(v@.subrange(i + 1, v@.len() as int), seps);
            let rest = spec_split_any(v@.subrange(i as int, v@.len() as int), seps);
            if seps.contains(c) {
                assert(fin.deep_view().push(cur@) =~~= fin.deep_view() + seq![cur@]);
                assert(rest.drop_first() =~~= rest1);
                assert(cur@ + rest[0] =~= cur@);
                assert(fin.deep_view() + (seq![cur@ + rest[0]] + rest.drop_first()) =~~= (
                fin.deep_view() + seq![cur@]) + (seq![Seq::<char>::empty() + rest1[0]]
                    + rest1.drop_first()));
            } else {
                assert(rest[0] == seq![c] + rest1[0]);
                assert(rest.drop_first() =~~= rest1.drop_first());
                assert(cur@ + rest[0] =~= cur@.push(c) + rest1[0]);
                assert(fin.deep_view() + (seq![cur@ + rest[0]] + rest.drop_first()) =~~= (
                fin.deep_view() + (seq![cur@.push(c) + rest1[0]] + rest1.drop_first())));
            }
        }
        if c == sep {
            let done = cur;
            cur = Vec::new();
            let ghost old_deep = fin.deep_view();
            fin.push(done);
            proof {
                assert(fin.deep_view() =~~= old_deep.push(done@));
            }
        } else {
            cur.push(c);
        }
        i = i + 1;
    }
    proof {
        let rest = spec_split_any(v@.subrange(n as int, v@.len() as int), seps);
        assert(v@.subrange(n as int, v@.len() as int) =~= Seq::<char>::empty());
        assert(rest =~~= seq![Seq::<char>::empty()]);
        assert(cur@ + rest[0] =~= cur@);
        assert(rest.drop_first() =~~= Seq::<Seq<char>>::empty());
        assert(fin.deep_view() + (seq![cur@ + rest[0]] + rest.drop_first()) =~~= fin.deep_view()
            + seq![cur@]);
    }
    let ghost old_deep = fin.deep_view();
    fin.push(cur);
    proof {
        assert(fin.deep_view() =~~= old_deep.push(cur@));
        assert(fin.deep_view() =~~= spec_split_any(v@, seps));
    }
    fin
}

/// One split piece with a single trailing carriage return removed.
pub open spec fn spec_strip_cr(t: Seq<char>) -> Seq<char> {
    if t.len() > 0 && t.last() == '\r' {
        t.drop_last()
    } else {
        t
    }
}

/// The lines of `s`: the pieces between newline characters, each with a
/// trailing carriage return removed, and without the empty piece that a
/// trailing newline (or an empty `s`) would otherwise produce at the end.
pub open spec fn spec_lines(s: Seq<char>) -> Seq<Seq<char>> {
    let ps = spec_split(s, '\n');
    let kept = if ps.last().len() == 0 {
        ps.drop_last()
    } else {
        ps
    };
    kept.map_values(|t: Seq<char>| spec_strip_cr(t))
}

/// Splits `v` into its lines.
pub fn lines_of(v: &Vec<char>) -> (r: Vec<Vec<char>>)
    ensures
        r.deep_view() == spec_lines(v@),
{
    let mut ps = split_char(v, '\n');
    proof {
        lemma_split_any_len(v@, Set::empty().insert('\n'));
    }
    if ps[ps.len() - 1].len() == 0 {
        let ghost before = ps.deep_view();
        let _ = ps.pop();
        proof {
            assert(ps.deep_view() =~~= before.drop_last());
        }
    }
    let mut out: Vec<Vec<char>> = Vec::new();
    let mut i: usize = 0;
    let ghost kept = ps.deep_view();
    while i < ps.len()
        invariant
            0 <= i <= ps@.len(),
            kept == ps.deep_view(),
            out.deep_view().len() == i,
            forall|k: int| 0 <= k < i ==> out.deep_view()[k] == spec_strip_cr(#[trigger] kept[k]),
        decreases ps@.len() - i,
    {
        let p = &ps[i];
        let n = p.len();
        let ghost before = out.deep_view();
        if n > 0 && p[n - 1] == '\r' {
            let stripped = sub_vec(p, 0, n - 1);
            proof {
                assert(stripped@ =~= kept[i as int].drop_last());
            }
            out.push(stripped);
        } else {
            let copy = sub_vec(p, 0, n);
            proof {
                assert(copy@ =~= kept[i as int]);
            }
            out.push(copy);
        }
        proof {
            assert(out.deep_view() =~~= before.push(out@.last().deep_view()));
        }
        i = i + 1;
    }
    proof {
        assert(out.deep_view() =~~= spec_lines(v@));
    }
    out
}

/// The whitespace characters, as a separator set.
pub open spec fn space_set() -> Set<char> {
    Set::empty().insert(' ').insert('\t').insert('\n').insert('\r')
}

/// The pieces of `ps` that are nonempty, in order.
pub open spec fn spec_nonempty(ps: Seq<Seq<char>>) -> Seq<Seq<char>>
    decreases ps.len(),
{
    if ps.len() == 0 {
        Seq::empty()
    } else {
        let rest = spec_nonempty(ps.drop_first());
        if ps[0].len() > 0 {
            seq![ps[0]] + rest
        } else {
            rest
        }
    }
}

proof fn lemma_nonempty_push(ps: Seq<Seq<char>>, x: Seq<char>)
    ensures
        spec_nonempty(ps.push(x)) == spec_nonempty(ps) + (if x.len() > 0 {
            seq![x]
        } else {
            Seq::<Seq<char>>::empty()
        }),
    decreases ps.len(),
{
    if ps.len() == 0 {
        assert(ps.push(x).drop_first() =~~= Seq::<Seq<char>>::empty());
        assert(ps.push(x)[0] == x);
        assert(spec_nonempty(Seq::<Seq<char>>::empty()) == Seq::<Seq<char>>::empty());
        assert(spec_nonempty(ps) == Seq::<Seq<char>>::empty());
        if x.len() > 0 {
            assert(spec_nonempty(ps.push(x)) == seq![x] + Seq::<Seq<char>>::empty());
            assert(seq![x] + Seq::<Seq<char>>::empty() =~~= Seq::<Seq<char>>::empty() + seq![x]);
        } else {
            assert(spec_nonempty(ps.push(x)) =~~= Seq::<Seq<char>>::empty()
                + Seq::<Seq<char>>::empty());
        }
    } else {
        let tail = if x.len() > 0 {
            seq![x]
        } else {
            Seq::<Seq<char>>::empty()
        };
        assert(ps.push(x).drop_first() =~~= ps.drop_first().push(x));
        lemma_nonempty_push(ps.drop_first(), x);
        assert(spec_nonempty(ps.drop_first().push(x)) == spec_nonempty(ps.drop_first()) + tail);
        assert(ps.push(x)[0] == ps[0]);
        if ps[0].len() > 0 {
            assert(spec_nonempty(ps.push(x)) == seq![ps[0]] + (spec_nonempty(ps.drop_first())
                + tail));
            assert(seq![ps[0]] + (spec_nonempty(ps.drop_first()) + tail) =~~= (seq![ps[0]]
                + spec_nonempty(ps.drop_first())) + tail);
        } else {
            assert(spec_nonempty(ps.push(x)) == spec_nonempty(ps.drop_first()) + tail);
        }
    }
}

/// The whitespace-separated tokens of `s`, in order.
pub open spec fn spec_tokens(s: Seq<char>) -> Seq<Seq<char>> {
    spec_nonempty(spec_split_any(s, space_set()))
}

/// Splits `v` at every whitespace character, keeping empty pieces.
fn split_spaces(v: &Vec<char>) -> (r: Vec<Vec<char>>)
    ensures
        r.deep_view() == spec_split_any(v@, space_set()),
{
    let ghost seps = space_set();
    let n = v.len();
    let mut fin: Vec<Vec<char>> = Vec::new();
    let mut cur: Vec<char> = Vec::new();
    let mut i: usize = 0;
    proof {
        lemma_split_any_len(v@, seps);
        assert(v@.subrange(0, v@.len() as int) =~= v@);
        let rest = spec_split_any(v@, seps);
        assert(fin.deep_view() + (seq![cur@ + rest[0]] + rest.drop_first()) =~~= rest);
    }
    while i < n
        invariant
            0 <= i <= n == v@.len(),
            seps == space_set(),
            spec_split_any(v@, seps) == fin.deep_view() + ({
                let rest = spec_split_any(v@.subrange(i as int, v@.len() as int), seps);
                seq![cur@ + rest[0]] + rest.drop_first()
            }),
        decreases n - i,
    {
        let c = v[i];
        proof {
            lemma_split_any_step(v@, i as int, seps);
            lemma_split_any_len(v@.subrange(i + 1, v@.len() as int), seps);
            let rest1 = spec_split_any(v@.subrange(i + 1, v@.len() as int), seps);
            let rest = spec_split_any(v@.subrange(i as int, v@.len() as int), seps);
            if seps.contains(c) {
                assert(fin.deep_view().push(cur@) =~~= fin.deep_view() + seq![cur@]);
                assert(rest.drop_first() =~~= rest1);
                assert(cur@ + rest[0] =~= cur@);
                assert(fin.deep_view() + (seq![cur@ + rest[0]] + rest.drop_first()) =~~= (
                fin.deep_view() + seq![cur@]) + (seq![Seq::<char>::empty() + rest1[0]]
                    + rest1.drop_first()));
            } else {
                assert(rest[0] == seq![c] + rest1[0]);
                assert(rest.drop_first() =~~= rest1.drop_first());
                assert(cur@ + rest[0] =~= cur@.push(c) + rest1[0]);
                assert(fin.deep_view() + (seq![cur@ + rest[0]] + rest.drop_first()) =~~= (
                fin.deep_view() + (seq![cur@.push(c) + rest1[0]] + rest1.drop_first())));
            }
        }
        if is_space_char(c) {
            let done = cur;
            cur = Vec::new();
            let ghost old_deep = fin.deep_view();
            fin.push(done);
            proof {
                assert(fin.deep_view() =~~= old_deep.push(done@));
            }
        } else {
            cur.push(c);
        }
        i = i + 1;
    }
    proof {
        let rest = spec_split_any(v@.subrange(n as int, v@.len() as int), seps);
        assert(v@.subrange(n as int, v@.len() as int) =~= Seq::<char>::empty());
        assert(rest =~~= seq![Seq::<char>::empty()]);
        assert(cur@ + rest[0] =~= cur@);
        assert(rest.drop_first() =~~= Seq::<Seq<char>>::empty());
        assert(fin.deep_view() + (seq![cur@ + rest[0]] + rest.drop_first()) =~~= fin.deep_view()
            + seq![cur@]);
    }
    let ghost old_deep = fin.deep_view();
    fin.push(cur);
    proof {
        assert(fin.deep_view() =~~= old_deep.push(cur@));
        assert(fin.deep_view() =~~= spec_split_any(v@, seps));
    }
    fin
}

/// The whitespace-separated tokens of `v`.
pub fn tokens_of(v: &Vec<char>) -> (r: Vec<Vec<char>>)
    ensures
        r.deep_view() == spec_tokens(v@),
{
    let ps = split_spaces(v);
    let mut out: Vec<Vec<char>> = Vec::new();
    let mut i: usize = 0;
    let ghost pieces = ps.deep_view();
    proof {
        assert(pieces.take(0) =~~= Seq::<Seq<char>>::empty());
        assert(spec_nonempty(pieces.take(0)) =~~= Seq::<Seq<char>>::empty());
    }
    while i < ps.len()
        invariant
            0 <= i <= ps@.len(),
            pieces == ps.deep_view(),
            out.deep_view() == spec_nonempty(pieces.take(i as int)),
        decreases ps@.len() - i,
    {
        let p = &ps[i];
        let ghost before = out.deep_view();
        proof {
            assert(pieces.take(i + 1) =~~= pieces.take(i as int).push(pieces[i as int]));
            lemma_nonempty_push(pieces.take(i as int), pieces[i as int]);
        }
        if p.len() > 0 {
            let copy = sub_vec(p, 0, p.len());
            proof {
                assert(copy@ =~= pieces[i as int]);
            }
            out.push(copy);
            proof {
                assert(out.deep_view() =~~= before.push(pieces[i as int]));
                assert(out.deep_view() =~~= spec_nonempty(pieces.take(i + 1)));
            }
        } else {
            proof {
                assert(out.deep_view() =~~= spec_nonempty(pieces.take(i + 1)));
            }
        }
        i = i + 1;
    }
    proof {
        assert(pieces.take(ps@.len() as int) =~~= pieces);
    }
    out
}

/// Whether `c` is an ASCII decimal digit.
pub open spec fn is_ascii_digit(c: char) -> bool {
    48 <= c as u32 && c as u32 <= 57
}

/// The value of a decimal digit character.
pub open spec fn digit_val(c: char) -> int {
    c as u32 - 48
}

/// Whether `c` is an ASCII hexadecimal digit, either case.
pub open spec fn is_ascii_hex_digit(c: char) -> bool {
    is_ascii_digit(c) || (65 <= c as u32 && c as u32 <= 70) || (97 <= c as u32 && c as u32 <= 102)
}

/// The value of a hexadecimal digit character, either case.
pub open spec fn hex_digit_val(c: char) -> int {
    if is_ascii_digit(c) {
        c as u32 - 48
    } else if 65 <= c as u32 && c as u32 <= 70 {
        c as u32 - 55
    } else {
        c as u32 - 87
    }
}

/// The decimal value of an all-digit string.
pub open spec fn spec_dec_val(s: Seq<char>) -> int
    decreases s.len(),
{
    if s.len() == 0 {
        0
    } else {
        spec_dec_val(s.drop_last()) * 10 + digit_val(s.last())
    }
}

/// The hexadecimal value of an all-hex-digit string.
pub open spec fn spec_hex_val(s: Seq<char>) -> int
    decreases s.len(),
{
    if s.len() == 0 {
        0
    } else {
        spec_hex_val(s.drop_last()) * 16 + hex_digit_val(s.last())
    }
}

/// The digit part of a number: an optional leading plus sign is skipped, as
/// the standard integer parsers accept one.
pub open spec fn spec_num_body(s: Seq<char>) -> Seq<char> {
    if s.len() > 0 && s[0] == '+' {
        s.drop_first()
    } else {
        s
    }
}

pub open spec fn all_dec_digits(s: Seq<char>) -> bool {
    forall|i: int| 0 <= i < s.len() ==> is_ascii_digit(#[trigger] s[i])
}

pub open spec fn all_hex_digits(s: Seq<char>) -> bool {
    forall|i: int| 0 <= i < s.len() ==> is_ascii_hex_digit(#[trigger] s[i])
}

/// Whether `s` is text that parses as a decimal `u32`: an optional plus sign,
/// then at least one digit, with a value below 2^32.
pub open spec fn spec_u32_dec_ok(s: Seq<char>) -> bool {
    let b = spec_num_body(s);
    b.len() > 0 && all_dec_digits(b) && spec_dec_val(b) < 0x1_0000_0000
}

/// The value of such text.
pub open spec fn spec_u32_dec(s: Seq<char>) -> int {
    spec_dec_val(spec_num_body(s))
}

/// Whether `s` parses as a hexadecimal `u32`.
pub open spec fn spec_u32_hex_ok(s: Seq<char>) -> bool {
    let b = spec_num_body(s);
    b.len() > 0 && all_hex_digits(b) && spec_hex_val(b) < 0x1_0000_0000
}

/// The value of such text.
pub open spec fn spec_u32_hex(s: Seq<char>) -> int {
    spec_hex_val(spec_num_body(s))
}

proof fn lemma_dec_val_nonneg(s: Seq<char>)
    requires
        all_dec_digits(s),
    ensures
        spec_dec_val(s) >= 0,
    decreases s.len(),
{
    if s.len() > 0 {
        assert(all_dec_digits(s.drop_last())) by {
            assert(forall|i: int|
                0 <= i < s.len() - 1 ==> is_ascii_digit(#[trigger] s.drop_last()[i]));
        }
        lemma_dec_val_nonneg(s.drop_last());
    }
}

proof fn lemma_dec_val_grows(s: Seq<char>, i: int)
    requires
        all_dec_digits(s),
        0 <= i <= s.len(),
    ensures
        spec_dec_val(s) >= spec_dec_val(s.take(i)),
    decreases s.len() - i,
{
    if i < s.len() {
        assert(s.take(i + 1).drop_last() =~= s.take(i));
        assert(all_dec_digits(s.take(i))) by {
            assert(forall|k: int| 0 <= k < i ==> is_ascii_digit(#[trigger] s.take(i)[k]));
        }
        lemma_dec_val_nonneg(s.take(i));
        assert(spec_dec_val(s.take(i + 1)) == spec_dec_val(s.take(i)) * 10 + digit_val(
            s.take(i + 1).last(),
        ));
        lemma_dec_val_grows(s, i + 1);
    } else {
        assert(s.take(i) =~= s);
    }
}

proof fn lemma_hex_val_nonneg(s: Seq<char>)
    requires
        all_hex_digits(s),
    ensures
        spec_hex_val(s) >= 0,
    decreases s.len(),
{
    if s.len() > 0 {
        assert(all_hex_digits(s.drop_last())) by {
            assert(forall|i: int|
                0 <= i < s.len() - 1 ==> is_ascii_hex_digit(#[trigger] s.drop_last()[i]));
        }
        lemma_hex_val_nonneg(s.drop_last());
    }
}

proof fn lemma_hex_val_grows(s: Seq<char>, i: int)
    requires
        all_hex_digits(s),
        0 <= i <= s.len(),
    ensures
        spec_hex_val(s) >= spec_hex_val(s.take(i)),
    decreases s.len() - i,
{
    if i < s.len() {
        assert(s.take(i + 1).drop_last() =~= s.take(i));
        assert(all_hex_digits(s.take(i))) by {
            assert(forall|k: int| 0 <= k < i ==> is_ascii_hex_digit(#[trigger] s.take(i)[k]));
        }
        lemma_hex_val_nonneg(s.take(i));
        assert(spec_hex_val(s.take(i + 1)) == spec_hex_val(s.take(i)) * 16 + hex_digit_val(
            s.take(i + 1).last(),
        ));
        lemma_hex_val_grows(s, i + 1);
    } else {
        assert(s.take(i) =~= s);
    }
}

/// Parses `v` as a decimal `u32`, as the standard parser does: an optional
/// plus sign, then digits; anything else, or a value past `u32::MAX`, fails.
pub fn parse_u32_dec(v: &Vec<char>) -> (r: Option<u32>)
    ensures
        spec_u32_dec_ok(v@) ==> r == Some((spec_u32_dec(v@) as u32)) && 0 <= spec_u32_dec(v@)
            < 0x1_0000_0000,
        !spec_u32_dec_ok(v@) ==> r is None,
{
    let n = v.len();
    let start: usize = if n > 0 && v[0] == '+' {
        1
    } else {
        0
    };
    let ghost b = spec_num_body(v@);
    proof {
        assert(b =~= v@.subrange(start as int, n as int));
    }
    if n == start {
        return None;
    }
    let mut acc: u64 = 0;
    let mut i: usize = start;
    while i < n
        invariant
            start <= i <= n == v@.len(),
            b == spec_num_body(v@),
            b == v@.subrange(start as int, n as int),
            all_dec_digits(b.take(i - start)),
            acc == spec_dec_val(b.take(i - start)),
            acc <= 0xFFFF_FFFF,
        decreases n - i,
    {
        let c = v[i];
        let u = c as u32;
        if u < 48 || u > 57 {
            proof {
                assert(b[i - start] == c);
                assert(!all_dec_digits(b));
            }
            return None;
        }
        proof {
            assert(b.take(i - start + 1).drop_last() =~= b.take(i - start));
            assert(forall|k: int|
                0 <= k < i - start + 1 ==> is_ascii_digit(#[trigger] b.take(i - start + 1)[k]));
        }
        acc = acc * 10 + ((u - 48) as u64);
        if acc > 0xFFFF_FFFF {
            proof {
                if all_dec_digits(b) {
                    lemma_dec_val_grows(b, i - start + 1);
                }
            }
            return None;
        }
        i = i + 1;
    }
    proof {
        assert(b.take(n - start) =~= b);
    }
    Some(acc as u32)
}

/// Parses `v` as a hexadecimal `u32`, as the standard radix-16 parser does.
pub fn parse_u32_hex(v: &Vec<char>) -> (r: Option<u32>)
    ensures
        spec_u32_hex_ok(v@) ==> r == Some((spec_u32_hex(v@) as u32)),
        !spec_u32_hex_ok(v@) ==> r is None,
{
    let n = v.len();
    let start: usize = if n > 0 && v[0] == '+' {
        1
    } else {
        0
    };
    let ghost b = spec_num_body(v@);
    proof {
        assert(b =~= v@.subrange(start as int, n as int));
    }
    if n == start {
        return None;
    }
    let mut acc: u64 = 0;
    let mut i: usize = start;
    while i < n
        invariant
            start <= i <= n == v@.len(),
            b == spec_num_body(v@),
            b == v@.subrange(start as int, n as int),
            all_hex_digits(b.take(i - start)),
            acc == spec_hex_val(b.take(i - start)),
            acc <= 0xFFFF_FFFF,
        decreases n - i,
    {
        let c = v[i];
        let u = c as u32;
        let d: u32 = if 48 <= u && u <= 57 {
            u - 48
        } else if 65 <= u && u <= 70 {
            u - 55
        } else if 97 <= u && u <= 102 {
            u - 87
        } else {
            proof {
                assert(b[i - start] == c);
                assert(!all_hex_digits(b));
            }
            return None;
        };
        proof {
            assert(b.take(i - start + 1).drop_last() =~= b.take(i - start));
            assert(forall|k: int|
                0 <= k < i - start + 1 ==> is_ascii_hex_digit(#[trigger] b.take(i - start + 1)[k]));
        }
        acc = acc * 16 + (d as u64);
        if acc > 0xFFFF_FFFF {
            proof {
                if all_hex_digits(b) {
                    lemma_hex_val_grows(b, i - start + 1);
                }
            }
            return None;
        }
        i = i + 1;
    }
    proof {
        assert(b.take(n - start) =~= b);
    }
    Some(acc as u32)
}

/// Whether `s` parses as a decimal `u8`.
pub open spec fn spec_u8_dec_ok(s: Seq<char>) -> bool {
    let b = spec_num_body(s);
    b.len() > 0 && all_dec_digits(b) && spec_dec_val(b) < 256
}

/// Parses `v` as a decimal `u8`, as the standard parser does.
pub fn parse_u8_dec(v: &Vec<char>) -> (r: Option<u8>)
    ensures
        spec_u8_dec_ok(v@) ==> r == Some((spec_u32_dec(v@) as u8)),
        !spec_u8_dec_ok(v@) ==> r is None,
{
    match parse_u32_dec(v) {
        Some(x) => {
            proof {
                assert(spec_u32_dec_ok(v@));
                lemma_dec_val_nonneg(spec_num_body(v@));
            }
            if x <= 255 {
                Some(x as u8)
            } else {
                None
            }
        },
        None => {
            proof {
                if spec_u8_dec_ok(v@) {
                    assert(spec_u32_dec_ok(v@));
                }
            }
            None
        },
    }
}

/// Collects the characters of `s`.
pub fn chars_of(s: &str) -> (r: Vec<char>)
    ensures
        r@ == s@,
{
    let n = s.unicode_len();
    let mut out: Vec<char> = Vec::new();
    let mut i: usize = 0;
    while i < n
        invariant
            0 <= i <= n == s@.len(),
            out@ == s@.take(i as int),
        decreases n - i,
    {
        out.push(s.get_char(i));
        proof {
            assert(s@.take(i + 1) =~= s@.take(i as int).push(s@[i as int]));
        }
        i = i + 1;
    }
    proof {
        assert(s@.take(n as int) =~= s@);
    }
    out
}

/// Appends all characters of `v` to `out`.
pub fn push_chars(out: &mut Vec<char>, v: &Vec<char>)
    ensures
        final(out)@ == old(out)@ + v@,
{
    let mut i: usize = 0;
    while i < v.len()
        invariant
            0 <= i <= v@.len(),
            out@ == old(out)@ + v@.take(i as int),
        decreases v@.len() - i,
    {
        out.push(v[i]);
        proof {
            assert(old(out)@ + v@.take(i + 1) =~= (old(out)@ + v@.take(i as int)).push(
                v@[i as int],
            ));
        }
        i = i + 1;
    }
    proof {
        assert(old(out)@ + v@.take(v@.len() as int) =~= old(out)@ + v@);
    }
}

/// Appends the characters of the string slice `s` to `out`.
pub fn push_lit(out: &mut Vec<char>, s: &str)
    ensures
        final(out)@ == old(out)@ + s@,
{
    let cs = chars_of(s);
    push_chars(out, &cs);
}

/// Appends the characters of the string `s` to `out`.
pub fn push_string(out: &mut Vec<char>, s: &String)
    ensures
        final(out)@ == old(out)@ + s@,
{
    push_lit(out, s.as_str());
}

/// Relies on `String: FromIterator<char>` through `Iterator::collect`:
/// collecting characters builds the string of exactly those characters.
#[verifier::external_body]
pub fn string_from_chars(v: &Vec<char>) -> (r: String)
    ensures
        r@ == v@,
{
    v.iter().collect()
}

/// Whether the characters of `v` from position `i` start with `pat`.
pub open spec fn spec_starts_at(s: Seq<char>, i: int, pat: Seq<char>) -> bool {
    i + pat.len() <= s.len() && (forall|j: int| 0 <= j < pat.len() ==> s[i + j] == #[trigger] pat[j])
}

/// Whether `v` begins with the literal `pat`.
pub fn starts_with_lit(v: &Vec<char>, pat: &str) -> (r: bool)
    ensures
        r == spec_starts_at(v@, 0, pat@),
{
    let m = pat.unicode_len();
    if v.len() < m {
        return false;
    }
    let mut j: usize = 0;
    while j < m
        invariant
            0 <= j <= m == pat@.len(),
            m <= v@.len(),
            forall|k: int| 0 <= k < j ==> v@[k] == #[trigger] pat@[k],
        decreases m - j,
    {
        if v[j] != pat.get_char(j) {
            return false;
        }
        j = j + 1;
    }
    true
}

/// Whether the characters of `v` are exactly those of the literal `pat`.
pub fn eq_lit(v: &Vec<char>, pat: &str) -> (r: bool)
    ensures
        r == (v@ == pat@),
{
    let m = pat.unicode_len();
    if v.len() != m {
        proof {
            assert(v@.len() != pat@.len());
        }
        return false;
    }
    let mut j: usize = 0;
    while j < m
        invariant
            0 <= j <= m == pat@.len() == v@.len(),
            forall|k: int| 0 <= k < j ==> v@[k] == #[trigger] pat@[k],
        decreases m - j,
    {
        if v[j] != pat.get_char(j) {
            return false;
        }
        j = j + 1;
    }
    proof {
        assert(v@ =~= pat@);
    }
    true
}

/// Whether `pat` (given uppercase) occurs at position `i` of `s`, comparing
/// ASCII case-insensitively.
pub open spec fn spec_matches_ci_at(s: Seq<char>, i: int, pat: Seq<char>) -> bool {
    i + pat.len() <= s.len() && (forall|j: int|
        0 <= j < pat.len() ==> spec_ascii_upper(s[i + j]) == #[trigger] pat[j])
}

/// The first position of `s` where `pat` occurs case-insensitively, or -1.
pub open spec fn spec_find_ci(s: Seq<char>, pat: Seq<char>) -> int
    decreases s.len(),
{
    if spec_matches_ci_at(s, 0, pat) {
        0
    } else if s.len() == 0 {
        -1
    } else {
        let r = spec_find_ci(s.drop_first(), pat);
        if r < 0 {
            -1
        } else {
            r + 1
        }
    }
}

proof fn lemma_matches_ci_shift(s: Seq<char>, k: int, pat: Seq<char>)
    requires
        s.len() > 0,
        k >= 0,
    ensures
        spec_matches_ci_at(s.drop_first(), k, pat) == spec_matches_ci_at(s, k + 1, pat),
{
    let t = s.drop_first();
    if spec_matches_ci_at(t, k, pat) {
        assert forall|j: int| 0 <= j < pat.len() implies spec_ascii_upper(s[k + 1 + j])
            == #[trigger] pat[j] by {
            assert(t[k + j] == s[k + 1 + j]);
        }
    }
    if spec_matches_ci_at(s, k + 1, pat) {
        assert forall|j: int| 0 <= j < pat.len() implies spec_ascii_upper(t[k + j])
            == #[trigger] pat[j] by {
            assert(t[k + j] == s[k + 1 + j]);
        }
    }
}

proof fn lemma_find_ci_from(s: Seq<char>, pat: Seq<char>, i: int)
    requires
        0 <= i,
        forall|k: int| 0 <= k < i ==> !spec_matches_ci_at(s, k, pat),
        i + pat.len() > s.len() || spec_matches_ci_at(s, i, pat),
    ensures
        spec_find_ci(s, pat) == if i + pat.len() <= s.len() {
            i
        } else {
            -1int
        },
    decreases i + s.len(),
{
    if spec_matches_ci_at(s, 0, pat) {
        assert(i == 0);
    } else if s.len() == 0 {
        assert(i + pat.len() > s.len() || i == 0);
    } else {
        if i == 0 {
            // no match anywhere at or past the end
            assert(i + pat.len() > s.len());
            assert forall|k: int| 0 <= k < s.drop_first().len() implies !spec_matches_ci_at(
                s.drop_first(),
                k,
                pat,
            ) by {
                lemma_matches_ci_shift(s, k, pat);
                if spec_matches_ci_at(s, k + 1, pat) {
                    assert(k + 1 + pat.len() <= s.len());
                }
            }
            lemma_find_ci_none(s.drop_first(), pat);
        } else {
            assert forall|k: int| 0 <= k < i - 1 implies !spec_matches_ci_at(
                s.drop_first(),
                k,
                pat,
            ) by {
                lemma_matches_ci_shift(s, k, pat);
            }
            lemma_matches_ci_shift(s, i - 1, pat);
            lemma_find_ci_from(s.drop_first(), pat, i - 1);
        }
    }
}

proof fn lemma_find_ci_none(s: Seq<char>, pat: Seq<char>)
    requires
        forall|k: int| 0 <= k ==> !spec_matches_ci_at(s, k, pat),
    ensures
        spec_find_ci(s, pat) == -1,
    decreases s.len(),
{
    if s.len() > 0 {
        assert forall|k: int| 0 <= k implies !spec_matches_ci_at(s.drop_first(), k, pat) by {
            lemma_matches_ci_shift(s, k, pat);
        }
        lemma_find_ci_none(s.drop_first(), pat);
    }
}

/// Finds the first case-insensitive occurrence of the uppercase literal
/// `pat` in `v`.
pub fn find_ci(v: &Vec<char>, pat: &str) -> (r: Option<usize>)
    requires
        pat@.len() > 0,
    ensures
        match r {
            Some(i) => spec_find_ci(v@, pat@) == i && i + pat@.len() <= v@.len(),
            None => spec_find_ci(v@, pat@) == -1,
        },
{
    let n = v.len();
    let m = pat.unicode_len();
    if m > n {
        proof {
            assert(forall|k: int| 0 <= k ==> !spec_matches_ci_at(v@, k, pat@));
            lemma_find_ci_none(v@, pat@);
        }
        return None;
    }
    let mut i: usize = 0;
    while i <= n - m
        invariant
            0 <= i <= n - m + 1,
            m == pat@.len(),
            n == v@.len(),
            0 < m <= n,
            forall|k: int| 0 <= k < i ==> !spec_matches_ci_at(v@, k, pat@),
        decreases n - i,
    {
        let mut j: usize = 0;
        let mut hit = true;
        while j < m
            invariant
                0 <= j <= m == pat@.len(),
                n == v@.len(),
                i + m <= n,
                hit == (forall|k: int|
                    0 <= k < j ==> spec_ascii_upper(v@[i + k]) == #[trigger] pat@[k]),
            decreases m - j,
        {
            if ascii_upper(v[i + j]) != pat.get_char(j) {
                hit = false;
                proof {
                    assert(spec_ascii_upper(v@[i + j]) != pat@[j as int]);
                }
                j = m;
            } else {
                proof {
                    if hit {
                        assert(forall|k: int|
                            0 <= k < j + 1 ==> spec_ascii_upper(v@[i + k]) == #[trigger] pat@[k]);
                    }
                }
                j = j + 1;
            }
        }
        if hit {
            proof {
                lemma_find_ci_from(v@, pat@, i as int);
            }
            return Some(i);
        }
        proof {
            assert(!spec_matches_ci_at(v@, i as int, pat@));
        }
        i = i + 1;
    }
    proof {
        lemma_find_ci_from(v@, pat@, i as int);
    }
    None
}

/// The first position of `c` in `s` at or after position `from`, or -1.
pub open spec fn spec_find_char_from(s: Seq<char>, from: int, c: char) -> int
    decreases s.len() - from,
{
    if from < 0 || from >= s.len() {
        -1
    } else if s[from] == c {
        from
    } else {
        spec_find_char_from(s, from + 1, c)
    }
}

/// Finds the first occurrence of `c` in `v` at or after `from`.
pub fn find_char_from(v: &Vec<char>, from: usize, c: char) -> (r: Option<usize>)
    ensures
        match r {
            Some(i) => spec_find_char_from(v@, from as int, c) == i && from <= i < v@.len(),
            None => spec_find_char_from(v@, from as int, c) == -1,
        },
{
    let n = v.len();
    let mut i: usize = from;
    while i < n
        invariant
            from <= i || (from >= n && i == from),
            n == v@.len(),
            spec_find_char_from(v@, from as int, c) == spec_find_char_from(v@, i as int, c),
        decreases n - i,
    {
        if v[i] == c {
            return Some(i);
        }
        i = i + 1;
    }
    None
}

/// The decimal text of a nonnegative number is nonempty and all digits.
pub proof fn lemma_dec_chars(n: int)
    requires
        n >= 0,
    ensures
        spec_dec(n).len() >= 1,
        all_dec_digits(spec_dec(n)),
    decreases n,
{
    if n < 10 {
        assert(forall|i: int| 0 <= i < 1 ==> is_ascii_digit(#[trigger] spec_dec(n)[i]));
    } else {
        lemma_dec_chars(n / 10);
        let s = spec_dec(n / 10);
        assert(forall|i: int|
            0 <= i < s.push(spec_digit(n % 10)).len() ==> is_ascii_digit(
                #[trigger] s.push(spec_digit(n % 10))[i],
            ));
    }
}

/// Reading back the decimal text of a nonnegative number gives the number.
pub proof fn lemma_dec_val_inverse(n: int)
    requires
        n >= 0,
    ensures
        spec_dec_val(spec_dec(n)) == n,
    decreases n,
{
    if n < 10 {
        assert(spec_dec_val(Seq::<char>::empty()) == 0);
        assert(spec_dec(n).drop_last() =~= Seq::<char>::empty());
        assert(spec_dec(n).last() == spec_digit(n));
        assert(spec_digit(n) as u32 == n + 48);
        assert(digit_val(spec_digit(n)) == n);
    } else {
        lemma_dec_val_inverse(n / 10);
        assert(spec_dec(n).drop_last() =~= spec_dec(n / 10));
        assert(spec_digit(n % 10) as u32 == n % 10 + 48);
        assert(digit_val(spec_digit(n % 10)) == n % 10);
    }
}

/// Trimming changes nothing when neither end of `s` is whitespace.
pub proof fn lemma_trim_id(s: Seq<char>)
    requires
        s.len() == 0 || (!is_space(s[0]) && !is_space(s.last())),
    ensures
        spec_trim(s) == s,
{
    lemma_trim_start_range(s, 0);
    assert(s.subrange(0, s.len() as int) =~= s);
    lemma_trim_end_range(s, s.len() as int);
    assert(s.take(s.len() as int) =~= s);
}

/// A piece free of separators splits into itself alone.
pub proof fn lemma_split_no_sep(s: Seq<char>, seps: Set<char>)
    requires
        forall|i: int| 0 <= i < s.len() ==> !seps.contains(#[trigger] s[i]),
    ensures
        spec_split_any(s, seps) == seq![s],
    decreases s.len(),
{
    if s.len() == 0 {
        assert(spec_split_any(s, seps) =~~= seq![s]);
    } else {
        lemma_split_no_sep(s.drop_first(), seps);
        let rest = spec_split_any(s.drop_first(), seps);
        assert(rest[0] == s.drop_first());
        assert(seq![s[0]] + rest[0] =~= s);
        assert(spec_split_any(s, seps) =~~= seq![s]);
    }
}

/// Splitting at the first separator: the text before it is the first piece,
/// and the rest splits on its own.
pub proof fn lemma_split_first_sep(s: Seq<char>, seps: Set<char>, i: int)
    requires
        0 <= i < s.len(),
        seps.contains(s[i]),
        forall|k: int| 0 <= k < i ==> !seps.contains(#[trigger] s[k]),
    ensures
        spec_split_any(s, seps) == seq![s.take(i)] + spec_split_any(
            s.skip(i + 1),
            seps,
        ),
    decreases i,
{
    if i == 0 {
        assert(s.take(0) =~= Seq::<char>::empty());
        assert(s.drop_first() =~= s.skip(1));
    } else {
        let t = s.drop_first();
        assert(forall|k: int| 0 <= k < i - 1 ==> !seps.contains(#[trigger] t[k]));
        assert(t[i - 1] == s[i]);
        lemma_split_first_sep(t, seps, i - 1);
        assert(t.take(i - 1) =~= s.take(i).drop_first());
        assert(t.skip(i) =~= s.skip(i + 1));
        let rest = spec_split_any(t, seps);
        assert(rest == seq![t.take(i - 1)] + spec_split_any(s.skip(i + 1), seps));
        assert(rest.len() >= 1);
        assert(rest[0] == t.take(i - 1));
        assert(seq![s[0]] + rest[0] =~= s.take(i));
        assert(spec_split_any(s, seps) =~~= seq![s.take(i)] + spec_split_any(s.skip(i + 1), seps));
    }
}

/// No occurrence of `c` at or after `from` means the search fails.
pub proof fn lemma_find_char_none(s: Seq<char>, from: int, c: char)
    requires
        forall|k: int| from <= k < s.len() ==> s[k] != c,
    ensures
        spec_find_char_from(s, from, c) == -1,
    decreases s.len() - from,
{
    if 0 <= from < s.len() {
        lemma_find_char_none(s, from + 1, c);
    }
}

/// Normalization changes nothing when no character is a separator or an
/// ASCII lowercase letter.
pub proof fn lemma_norm_hex_id(s: Seq<char>)
    requires
        forall|i: int|
            0 <= i < s.len() ==> !is_raster_sep(#[trigger] s[i]) && !(97 <= s[i] as u32 && s[i]
                as u32 <= 122),
    ensures
        spec_norm_hex(s) == s,
{
    let kept = |c: char| !is_raster_sep(c);
    assert(forall|i: int| 0 <= i < s.len() ==> #[trigger] kept(s[i]));
    lemma_filter_all(s, kept);
    let up = |c: char| spec_ascii_upper(c);
    assert forall|i: int| 0 <= i < s.len() implies #[trigger] s.map_values(up)[i] == s[i] by {
        assert(up(s[i]) == s[i]);
    }
    assert(spec_norm_hex(s) =~= s);
}

/// Whether `pat` occurs anywhere in `s`, compared exactly.
pub open spec fn spec_contains_lit(s: Seq<char>, pat: Seq<char>) -> bool {
    exists|i: int| 0 <= i && spec_starts_at(s, i, pat)
}

/// Whether the literal `pat` occurs anywhere in `v`.
pub fn contains_lit(v: &Vec<char>, pat: &str) -> (r: bool)
    ensures
        r == spec_contains_lit(v@, pat@),
{
    let n = v.len();
    let m = pat.unicode_len();
    if m > n {
        proof {
            assert(forall|k: int| 0 <= k ==> !spec_starts_at(v@, k, pat@));
        }
        return false;
    }
    let mut i: usize = 0;
    while i <= n - m
        invariant
            0 <= i <= n - m + 1,
            m == pat@.len(),
            n == v@.len(),
            m <= n,
            forall|k: int| 0 <= k < i ==> !spec_starts_at(v@, k, pat@),
        decreases n - i,
    {
        let mut j: usize = 0;
        let mut hit = true;
        while j < m
            invariant
                0 <= j <= m == pat@.len(),
                n == v@.len(),
                i + m <= n,
                hit == (forall|k: int| 0 <= k < j ==> v@[i + k] == #[trigger] pat@[k]),
            decreases m - j,
        {
            if v[i + j] != pat.get_char(j) {
                hit = false;
                proof {
                    assert(v@[i + j] != pat@[j as int]);
                }
                j = m;
            } else {
                proof {
                    if hit {
                        assert(forall|k: int| 0 <= k < j + 1 ==> v@[i + k] == #[trigger] pat@[k]);
                    }
                }
                j = j + 1;
            }
        }
        if hit {
            proof {
                assert(spec_starts_at(v@, i as int, pat@));
            }
            return true;
        }
        proof {
            assert(!spec_starts_at(v@, i as int, pat@));
        }
        i = i + 1;
    }
    proof {
        assert(forall|k: int| 0 <= k ==> !spec_starts_at(v@, k, pat@)) by {
            assert forall|k: int| 0 <= k implies !spec_starts_at(v@, k, pat@) by {
                if k + pat@.len() <= v@.len() {
                    assert(k < i);
                }
            }
        }
    }
    false
}

/// The concatenation of all the pieces, in order.
pub open spec fn spec_concat(ps: Seq<Seq<char>>) -> Seq<char>
    decreases ps.len(),
{
    if ps.len() == 0 {
        Seq::empty()
    } else {
        ps[0] + spec_concat(ps.drop_first())
    }
}

proof fn lemma_concat_push(ps: Seq<Seq<char>>, x: Seq<char>)
    ensures
        spec_concat(ps.push(x)) == spec_concat(ps) + x,
    decreases ps.len(),
{
    if ps.len() == 0 {
        assert(ps.push(x).drop_first() =~~= Seq::<Seq<char>>::empty());
        assert(ps.push(x)[0] == x);
        assert(spec_concat(Seq::<Seq<char>>::empty()) == Seq::<char>::empty());
        assert(spec_concat(ps.push(x)) =~= x + Seq::<char>::empty());
        assert(spec_concat(ps) + x =~= x + Seq::<char>::empty());
    } else {
        assert(ps.push(x).drop_first() =~~= ps.drop_first().push(x));
        lemma_concat_push(ps.drop_first(), x);
        assert(ps.push(x)[0] == ps[0]);
        assert(spec_concat(ps.push(x)) == ps[0] + (spec_concat(ps.drop_first()) + x));
        assert(ps[0] + (spec_concat(ps.drop_first()) + x) =~= (ps[0] + spec_concat(
            ps.drop_first(),
        )) + x);
    }
}

/// Concatenates the pieces of `ps` from position `from` on.
pub fn concat_from(ps: &Vec<Vec<char>>, from: usize) -> (r: Vec<char>)
    requires
        from <= ps@.len(),
    ensures
        r@ == spec_concat(ps.deep_view().skip(from as int)),
{
    let ghost tail = ps.deep_view().skip(from as int);
    let mut out: Vec<char> = Vec::new();
    let mut i: usize = from;
    proof {
        assert(tail.take(0) =~~= Seq::<Seq<char>>::empty());
        assert(out@ =~= spec_concat(tail.take(0)));
    }
    while i < ps.len()
        invariant
            from <= i <= ps@.len(),
            tail == ps.deep_view().skip(from as int),
            out@ == spec_concat(tail.take(i - from)),
        decreases ps@.len() - i,
    {
        let p = &ps[i];
        push_chars(&mut out, p);
        proof {
            assert(tail.take(i - from + 1) =~~= tail.take(i - from).push(tail[i - from]));
            lemma_concat_push(tail.take(i - from), tail[i - from]);
            assert(tail[i - from] == p.deep_view());
            assert(p.deep_view() =~= p@);
            assert(out@ =~= spec_concat(tail.take(i - from + 1)));
        }
        i = i + 1;
    }
    proof {
        assert(tail.take(ps@.len() - from) =~~= tail);
    }
    out
}

} // verus!
