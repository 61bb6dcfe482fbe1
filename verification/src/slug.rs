//! URL-slug derivation and uniqueness resolution.
//!
//! [`slugify`] turns arbitrary text into a lowercase, hyphen-separated,
//! URL-safe token; [`ensure_unique_slug`] resolves a candidate against the
//! set of slugs already stored by appending the first free ascending
//! numeric suffix.

use vstd::prelude::*;
use vstd::string::StringExecFns;
use crate::text::{
    chars_of, is_alnum, is_alphanumeric_char, is_ascii_char, lower_of, push_char, seq_is_ascii,
    spec_ascii_alnum, spec_ascii_lower_char, to_lowercase,
};

verus! {

/// Collapses every maximal run of non-token characters (per `keep`) into a
/// single hyphen and drops leading runs entirely.
pub open spec fn spec_collapse_by(s: Seq<char>, keep: spec_fn(char) -> bool) -> Seq<char>
    decreases s.len(),
{
    if s.len() == 0 {
        Seq::empty()
    } else {
        let prefix = spec_collapse_by(s.drop_last(), keep);
        let c = s.last();
        if keep(c) {
            prefix.push(c)
        } else if prefix.len() > 0 && prefix.last() != '-' {
            prefix.push('-')
        } else {
            prefix
        }
    }
}

/// Drops the single hyphen that a trailing separator run leaves behind.
pub open spec fn spec_strip_trailing(s: Seq<char>) -> Seq<char> {
    if s.len() > 0 && s.last() == '-' {
        s.drop_last()
    } else {
        s
    }
}

/// The token returned when normalization leaves nothing.
pub open spec fn spec_fallback_slug() -> Seq<char> {
    "post"@
}

/// Slug normalization of an already-lowercased character sequence.
pub open spec fn spec_slug_core(s: Seq<char>) -> Seq<char> {
    spec_strip_trailing(spec_collapse_by(s, |c: char| is_alnum(c)))
}

/// What [`slugify`] returns: lowercase the text, keep Unicode letters and
/// digits, collapse separator runs to one hyphen, strip boundary hyphens,
/// and fall back to a fixed token when nothing remains.
pub open spec fn spec_slugify(s: Seq<char>) -> Seq<char> {
    let core = spec_slug_core(lower_of(s));
    if core.len() == 0 {
        spec_fallback_slug()
    } else {
        core
    }
}

/// [`spec_slugify`] restricted to the ASCII classification, under which it
/// is fully determined (no uninterpreted Unicode functions).
pub open spec fn spec_slugify_ascii(s: Seq<char>) -> Seq<char> {
    let lowered = s.map_values(|c: char| spec_ascii_lower_char(c));
    let core = spec_strip_trailing(spec_collapse_by(lowered, |c: char| spec_ascii_alnum(c)));
    if core.len() == 0 {
        spec_fallback_slug()
    } else {
        core
    }
}

/// Two classifications that agree on every character of `s` collapse `s`
/// identically.
proof fn lemma_collapse_by_agree(s: Seq<char>, f: spec_fn(char) -> bool, g: spec_fn(char) -> bool)
    requires
        forall|i: int| 0 <= i < s.len() ==> f(#[trigger] s[i]) == g(s[i]),
    ensures
        spec_collapse_by(s, f) == spec_collapse_by(s, g),
    decreases s.len(),
{
    if s.len() > 0 {
        lemma_collapse_by_agree(s.drop_last(), f, g);
    }
}

/// Characters a collapsed sequence can hold: kept characters and hyphens,
/// never two hyphens in a row, never a leading hyphen.
proof fn lemma_collapse_by_shape(s: Seq<char>, keep: spec_fn(char) -> bool)
    requires
        !keep('-'),
    ensures
        forall|i: int|
            0 <= i < spec_collapse_by(s, keep).len()
                ==> keep(#[trigger] spec_collapse_by(s, keep)[i]) || spec_collapse_by(s, keep)[i]
                == '-',
        forall|i: int|
            0 <= i < spec_collapse_by(s, keep).len() - 1
                ==> !((#[trigger] spec_collapse_by(s, keep)[i]) == '-' && spec_collapse_by(
                s,
                keep,
            )[i + 1] == '-'),
        spec_collapse_by(s, keep).len() > 0 ==> spec_collapse_by(s, keep)[0] != '-',
    decreases s.len(),
{
    if s.len() > 0 {
        lemma_collapse_by_shape(s.drop_last(), keep);
        let prefix = spec_collapse_by(s.drop_last(), keep);
        let r = spec_collapse_by(s, keep);
        let c = s.last();
        if keep(c) {
            assert(r == prefix.push(c));
            assert forall|i: int| 0 <= i < r.len() - 1 implies !((#[trigger] r[i]) == '-' && r[i
                + 1] == '-') by {
                if i + 1 == prefix.len() {
                    assert(r[i + 1] == c);
                }
            }
        } else if prefix.len() > 0 && prefix.last() != '-' {
            assert(r == prefix.push('-'));
            assert forall|i: int| 0 <= i < r.len() - 1 implies !((#[trigger] r[i]) == '-' && r[i
                + 1] == '-') by {
                if i + 1 == prefix.len() {
                    assert(r[i] == prefix.last());
                }
            }
        }
    }
}

/// The ASCII collapse, as a named function for quantified reasoning.
pub open spec fn spec_collapse_ascii(s: Seq<char>) -> Seq<char> {
    spec_collapse_by(s, |c: char| spec_ascii_alnum(c))
}

/// The characters of an ASCII-collapsed sequence all come from the kept
/// ASCII alphanumerics of `s` or are hyphens.
proof fn lemma_collapse_ascii_chars(s: Seq<char>)
    ensures
        forall|i: int|
            0 <= i < spec_collapse_ascii(s).len() ==> (spec_ascii_alnum(
                #[trigger] spec_collapse_ascii(s)[i],
            ) && s.contains(spec_collapse_ascii(s)[i])) || spec_collapse_ascii(s)[i] == '-',
    decreases s.len(),
{
    if s.len() > 0 {
        lemma_collapse_ascii_chars(s.drop_last());
        assert forall|i: int|
            0 <= i < spec_collapse_ascii(s).len() implies (spec_ascii_alnum(
            #[trigger] spec_collapse_ascii(s)[i],
        ) && s.contains(spec_collapse_ascii(s)[i])) || spec_collapse_ascii(s)[i] == '-' by {
            let prefix = spec_collapse_ascii(s.drop_last());
            if i < prefix.len() {
                if prefix[i] != '-' {
                    let j = choose|j: int|
                        0 <= j < s.drop_last().len() && s.drop_last()[j] == prefix[i];
                    assert(s[j] == prefix[i]);
                }
            } else {
                if spec_collapse_ascii(s)[i] != '-' {
                    assert(spec_collapse_ascii(s)[i] == s.last());
                    assert(s[s.len() - 1] == s.last());
                }
            }
        }
    }
}

/// A character a finished ASCII slug may contain: a hyphen, a lowercase
/// ASCII letter or an ASCII digit.
pub open spec fn spec_ascii_slug_char(c: char) -> bool {
    c == '-' || ('a' as u32 <= c as u32 && c as u32 <= 'z' as u32) || ('0' as u32 <= c as u32
        && c as u32 <= '9' as u32)
}

/// The shape of a finished ASCII slug: non-empty, built from slug
/// characters, no hyphen at either end and no two hyphens in a row.
pub open spec fn spec_ascii_slug_shape(s: Seq<char>) -> bool {
    &&& s.len() > 0
    &&& s[0] != '-'
    &&& s.last() != '-'
    &&& forall|i: int| 0 <= i < s.len() ==> spec_ascii_slug_char(#[trigger] s[i])
    &&& forall|i: int| 0 <= i < s.len() - 1 ==> !((#[trigger] s[i]) == '-' && s[i + 1] == '-')
}

/// ASCII lowercasing does not change a sequence of finished slug
/// characters.
proof fn lemma_lower_noop(s: Seq<char>)
    requires
        forall|i: int| 0 <= i < s.len() ==> spec_ascii_slug_char(#[trigger] s[i]),
    ensures
        s.map_values(|c: char| spec_ascii_lower_char(c)) == s,
{
    assert(s.map_values(|c: char| spec_ascii_lower_char(c)) =~= s);
}

/// Collapsing a sequence that is already in slug shape (up to a possibly
/// absent trailing hyphen) leaves it unchanged.
proof fn lemma_collapse_ascii_fixed(s: Seq<char>)
    requires
        forall|i: int| 0 <= i < s.len() ==> spec_ascii_slug_char(#[trigger] s[i]),
        s.len() > 0 ==> s[0] != '-',
        forall|i: int| 0 <= i < s.len() - 1 ==> !((#[trigger] s[i]) == '-' && s[i + 1] == '-'),
    ensures
        spec_collapse_ascii(s) == s,
    decreases s.len(),
{
    if s.len() > 0 {
        lemma_collapse_ascii_fixed(s.drop_last());
        let prefix = s.drop_last();
        let c = s.last();
        if c == '-' {
            assert(s[0] != '-');
            assert(s.len() >= 2);
            assert(prefix.last() == s[s.len() - 2]);
            assert(prefix.last() != '-');
            assert(spec_collapse_ascii(s) == prefix.push('-'));
            assert(prefix.push('-') =~= s);
        } else {
            assert(spec_ascii_alnum(c));
            assert(spec_collapse_ascii(s) == prefix.push(c));
            assert(prefix.push(c) =~= s);
        }
    } else {
        assert(spec_collapse_ascii(s) =~= s);
    }
}

/// The result of the ASCII derivation is the fallback token or a sequence
/// in finished slug shape; either way it is non-empty and in shape.
proof fn lemma_slugify_ascii_shape(s: Seq<char>)
    ensures
        spec_ascii_slug_shape(spec_slugify_ascii(s)),
{
    let lowered = s.map_values(|c: char| spec_ascii_lower_char(c));
    let collapsed = spec_collapse_ascii(lowered);
    let core = spec_strip_trailing(collapsed);
    lemma_collapse_by_shape(lowered, |c: char| spec_ascii_alnum(c));
    lemma_collapse_ascii_chars(lowered);
    assert forall|i: int| 0 <= i < collapsed.len() implies spec_ascii_slug_char(
        #[trigger] collapsed[i],
    ) by {
        if collapsed[i] != '-' {
            assert(spec_ascii_alnum(collapsed[i]) && lowered.contains(collapsed[i]));
            let j = choose|j: int| 0 <= j < lowered.len() && lowered[j] == collapsed[i];
            assert(lowered[j] == spec_ascii_lower_char(s[j]));
        }
    }
    if core.len() == 0 {
        reveal_strlit("post");
        assert(spec_slugify_ascii(s) == spec_fallback_slug());
        assert(spec_fallback_slug().len() == 4);
        assert(spec_fallback_slug()[0] == 'p');
        assert(spec_fallback_slug()[1] == 'o');
        assert(spec_fallback_slug()[2] == 's');
        assert(spec_fallback_slug()[3] == 't');
        assert(spec_ascii_slug_shape(spec_fallback_slug()));
    } else {
        assert(spec_slugify_ascii(s) == core);
        if collapsed.len() > 0 && collapsed.last() == '-' {
            assert(core == collapsed.drop_last());
            assert(core.last() == collapsed[collapsed.len() - 2]);
        }
        assert(spec_ascii_slug_shape(core));
    }
}

/// Deriving a slug is idempotent: the ASCII derivation maps its own output
/// to itself, so a slug of a slug is the slug.
pub proof fn lemma_slugify_idempotent(s: Seq<char>)
    ensures
        spec_slugify_ascii(spec_slugify_ascii(s)) == spec_slugify_ascii(s),
{
    let r = spec_slugify_ascii(s);
    lemma_slugify_ascii_shape(s);
    lemma_lower_noop(r);
    lemma_collapse_ascii_fixed(r);
    assert(spec_strip_trailing(r) == r);
}

/// Derives a URL-safe, non-empty slug from arbitrary text.
///
/// Lowercases the text, maps every maximal run of non-alphanumeric
/// characters to a single hyphen, strips leading and trailing hyphens and
/// falls back to a fixed token for an empty result. Total and
/// deterministic; non-Latin letters and digits pass through unchanged.
pub fn slugify(text: &str) -> (r: String)
    ensures
        r@ == spec_slugify(text@),
        seq_is_ascii(text@) ==> r@ == spec_slugify_ascii(text@),
        r@.len() > 0,
{
    let lowered = to_lowercase(text);
    let cs = chars_of(lowered.as_str());
    let t = Ghost(lowered@);
    let mut out = String::new();
    let mut pending = false;
    let mut i: usize = 0;
    while i < cs.len()
        invariant
            cs@ == t@,
            i <= t@.len(),
            spec_collapse_by(t@.take(i as int), |c: char| is_alnum(c)) == out@ + (if pending {
                seq!['-']
            } else {
                Seq::<char>::empty()
            }),
            pending ==> out@.len() > 0,
            out@.len() > 0 ==> out@.last() != '-',
            forall|j: int|
                0 <= j < i && is_ascii_char(#[trigger] t@[j]) ==> is_alnum(t@[j])
                    == spec_ascii_alnum(t@[j]),
        decreases cs.len() - i,
    {
        let ghost prev = spec_collapse_by(t@.take(i as int), |c: char| is_alnum(c));
        let c = cs[i];
        proof {
            assert(t@.take(i + 1 as int).drop_last() =~= t@.take(i as int));
            assert(t@.take(i + 1 as int).last() == t@[i as int]);
        }
        if is_alphanumeric_char(c) {
            if pending {
                push_char(&mut out, '-');
                pending = false;
            }
            push_char(&mut out, c);
        } else {
            if !out.as_str().is_empty() {
                pending = true;
            }
        }
        proof {
            assert(spec_collapse_by(t@.take(i + 1 as int), |c: char| is_alnum(c)) == out@ + (
            if pending {
                seq!['-']
            } else {
                Seq::<char>::empty()
            }));
        }
        i = i + 1;
    }
    proof {
        assert(t@.take(i as int) =~= t@);
        assert(spec_strip_trailing(spec_collapse_by(t@, |c: char| is_alnum(c))) =~= out@);
    }
    if out.as_str().is_empty() {
        let fallback = String::from_str("post");
        proof {
            reveal_strlit("post");
            if seq_is_ascii(text@) {
                lemma_collapse_by_agree(
                    t@,
                    |c: char| is_alnum(c),
                    |c: char| spec_ascii_alnum(c),
                );
            }
        }
        fallback
    } else {
        proof {
            if seq_is_ascii(text@) {
                lemma_collapse_by_agree(
                    t@,
                    |c: char| is_alnum(c),
                    |c: char| spec_ascii_alnum(c),
                );
            }
        }
        out
    }
}

/// The ASCII digit character for `d` (0 through 9).
pub open spec fn spec_digit_char(d: int) -> char {
    if d == 0 {
        '0'
    } else if d == 1 {
        '1'
    } else if d == 2 {
        '2'
    } else if d == 3 {
        '3'
    } else if d == 4 {
        '4'
    } else if d == 5 {
        '5'
    } else if d == 6 {
        '6'
    } else if d == 7 {
        '7'
    } else if d == 8 {
        '8'
    } else {
        '9'
    }
}

/// The decimal digit string of a non-negative integer, most significant
/// digit first.
pub open spec fn spec_decimal(n: int) -> Seq<char>
    recommends
        n >= 0,
    decreases n,
{
    if n < 10 {
        seq![spec_digit_char(n)]
    } else {
        spec_decimal(n / 10).push(spec_digit_char(n % 10))
    }
}

/// A candidate slug with an ascending numeric suffix appended.
pub open spec fn spec_suffixed(base: Seq<char>, k: int) -> Seq<char>
    recommends
        k >= 0,
{
    base + seq!['-'] + spec_decimal(k)
}

/// Whether some slug in the list reads exactly `s`.
pub open spec fn slug_list_contains(list: Seq<Seq<char>>, s: Seq<char>) -> bool {
    exists|i: int| 0 <= i < list.len() && list[i] == s
}

/// The views of a sequence of owned strings.
pub open spec fn str_views(v: Seq<String>) -> Seq<Seq<char>> {
    v.map_values(|s: String| s@)
}

/// What [`ensure_unique_slug`] returns for candidate `base` against the
/// slug snapshot `existing`: the base itself when free, else the base with
/// the first free ascending suffix, starting at 1 and skipping no gap.
pub open spec fn spec_resolves(existing: Seq<Seq<char>>, base: Seq<char>, r: Seq<char>) -> bool {
    if !slug_list_contains(existing, base) {
        r == base
    } else {
        exists|k: int|
            1 <= k && r == spec_suffixed(base, k) && !slug_list_contains(
                existing,
                spec_suffixed(base, k),
            ) && (forall|j: int| 1 <= j < k ==> slug_list_contains(existing, spec_suffixed(base, j)))
    }
}

proof fn lemma_decimal_len(n: int)
    requires
        n >= 0,
    ensures
        spec_decimal(n).len() >= 1,
        n < 10 <==> spec_decimal(n).len() == 1,
    decreases n,
{
    if n >= 10 {
        lemma_decimal_len(n / 10);
    }
}

proof fn lemma_decimal_injective(a: int, b: int)
    requires
        a >= 0,
        b >= 0,
        spec_decimal(a) == spec_decimal(b),
    ensures
        a == b,
    decreases a,
{
    lemma_decimal_len(a);
    lemma_decimal_len(b);
    if a < 10 && b < 10 {
        assert(spec_decimal(a)[0] == spec_digit_char(a));
        assert(spec_decimal(b)[0] == spec_digit_char(b));
    } else if a >= 10 && b >= 10 {
        assert(spec_decimal(a).last() == spec_digit_char(a % 10));
        assert(spec_decimal(b).last() == spec_digit_char(b % 10));
        assert(a % 10 == b % 10);
        assert(spec_decimal(a).drop_last() == spec_decimal(a / 10));
        assert(spec_decimal(b).drop_last() == spec_decimal(b / 10));
        lemma_decimal_injective(a / 10, b / 10);
    }
}

proof fn lemma_suffixed_injective(base: Seq<char>, j: int, k: int)
    requires
        j >= 0,
        k >= 0,
        spec_suffixed(base, j) == spec_suffixed(base, k),
    ensures
        j == k,
{
    let sj = spec_suffixed(base, j);
    let sk = spec_suffixed(base, k);
    assert(sj.len() == base.len() + 1 + spec_decimal(j).len());
    assert(sk.len() == base.len() + 1 + spec_decimal(k).len());
    assert(spec_decimal(j) =~= sj.subrange(base.len() + 1 as int, sj.len() as int));
    assert(spec_decimal(k) =~= sk.subrange(base.len() + 1 as int, sk.len() as int));
    lemma_decimal_injective(j, k);
}

/// The set of the first `m` suffixed candidates; it has exactly `m`
/// members because distinct suffixes read distinctly.
spec fn suffix_set(base: Seq<char>, m: int) -> Set<Seq<char>> {
    Set::new(|v: Seq<char>| exists|j: int| 1 <= j <= m && v == spec_suffixed(base, j))
}

proof fn lemma_suffix_set_card(base: Seq<char>, m: int)
    requires
        m >= 0,
    ensures
        suffix_set(base, m).finite(),
        suffix_set(base, m).len() == m,
    decreases m,
{
    if m == 0 {
        assert(suffix_set(base, 0) =~= Set::<Seq<char>>::empty());
    } else {
        lemma_suffix_set_card(base, m - 1);
        assert forall|v: Seq<char>| #[trigger] suffix_set(base, m - 1).contains(v) implies v
            != spec_suffixed(base, m) by {
            let j = choose|j: int| 1 <= j <= m - 1 && v == spec_suffixed(base, j);
            if v == spec_suffixed(base, m) {
                lemma_suffixed_injective(base, j, m);
            }
        }
        assert(suffix_set(base, m) =~= suffix_set(base, m - 1).insert(spec_suffixed(base, m)));
    }
}

/// Pigeonhole: if every candidate suffix up to `m` is taken by the
/// snapshot, the snapshot holds at least `m` slugs.
proof fn lemma_suffix_bound(existing: Seq<Seq<char>>, base: Seq<char>, m: int)
    requires
        m >= 0,
        forall|j: int| 1 <= j <= m ==> slug_list_contains(existing, spec_suffixed(base, j)),
    ensures
        m <= existing.len(),
{
    lemma_suffix_set_card(base, m);
    assert forall|v: Seq<char>| suffix_set(base, m).contains(v) implies existing.to_set().contains(
        v,
    ) by {
        let j = choose|j: int| 1 <= j <= m && v == spec_suffixed(base, j);
        assert(slug_list_contains(existing, spec_suffixed(base, j)));
        let i = choose|i: int| 0 <= i < existing.len() && existing[i] == v;
        assert(existing.contains(v));
    }
    existing.lemma_cardinality_of_set();
    vstd::set_lib::lemma_len_subset(suffix_set(base, m), existing.to_set());
}

/// Resolution is deterministic: from one snapshot and one candidate
/// there is exactly one resolved slug, whatever order the snapshot was
/// gathered in.
pub proof fn lemma_resolve_deterministic(
    existing: Seq<Seq<char>>,
    base: Seq<char>,
    r1: Seq<char>,
    r2: Seq<char>,
)
    requires
        spec_resolves(existing, base, r1),
        spec_resolves(existing, base, r2),
    ensures
        r1 == r2,
{
    if slug_list_contains(existing, base) {
        let k1 = choose|k: int|
            1 <= k && r1 == spec_suffixed(base, k) && !slug_list_contains(
                existing,
                spec_suffixed(base, k),
            ) && (forall|j: int| 1 <= j < k ==> slug_list_contains(existing, spec_suffixed(base, j)));
        let k2 = choose|k: int|
            1 <= k && r2 == spec_suffixed(base, k) && !slug_list_contains(
                existing,
                spec_suffixed(base, k),
            ) && (forall|j: int| 1 <= j < k ==> slug_list_contains(existing, spec_suffixed(base, j)));
        if k1 < k2 {
            assert(slug_list_contains(existing, spec_suffixed(base, k1)));
        } else if k2 < k1 {
            assert(slug_list_contains(existing, spec_suffixed(base, k2)));
        }
    }
}

/// The ASCII digit character for a value below ten.
fn digit_char(d: u64) -> (c: char)
    requires
        d < 10,
    ensures
        c == spec_digit_char(d as int),
{
    match d {
        0 => '0',
        1 => '1',
        2 => '2',
        3 => '3',
        4 => '4',
        5 => '5',
        6 => '6',
        7 => '7',
        8 => '8',
        _ => '9',
    }
}

/// Appends the decimal digits of `n` to `s`.
fn push_decimal(s: &mut String, n: u64)
    ensures
        final(s)@ == old(s)@ + spec_decimal(n as int),
    decreases n,
{
    if n < 10 {
        let c = digit_char(n);
        push_char(s, c);
    } else {
        push_decimal(s, n / 10);
        let c = digit_char(n % 10);
        push_char(s, c);
        proof {
            assert(s@ =~= old(s)@ + spec_decimal(n as int));
        }
    }
}

/// Whether `s` occurs in the list of stored slugs.
fn slug_taken(existing: &Vec<String>, s: &String) -> (r: bool)
    ensures
        r == slug_list_contains(str_views(existing@), s@),
{
    let mut i: usize = 0;
    while i < existing.len()
        invariant
            i <= existing.len(),
            forall|j: int| 0 <= j < i ==> #[trigger] existing@[j]@ != s@,
        decreases existing.len() - i,
    {
        if existing[i] == *s {
            proof {
                assert(str_views(existing@)[i as int] == s@);
            }
            return true;
        }
        i = i + 1;
    }
    proof {
        assert forall|j: int| 0 <= j < existing@.len() implies #[trigger] str_views(existing@)[j]
            != s@ by {
            assert(str_views(existing@)[j] == existing@[j]@);
        }
    }
    false
}

/// Resolves `slug` to a slug absent from `existing_slugs`.
///
/// Returns `slug` unchanged when it is free; otherwise appends `-1`, `-2`,
/// … and returns the first suffixed candidate not present. The result is
/// reproducible from the same snapshot: ascending suffixes, starting at 1,
/// reusing no gap and drawing no randomness.
pub fn ensure_unique_slug(slug: &str, existing_slugs: &Vec<String>) -> (r: String)
    requires
        existing_slugs@.len() < usize::MAX,
    ensures
        spec_resolves(str_views(existing_slugs@), slug@, r@),
        !slug_list_contains(str_views(existing_slugs@), r@),
{
    let base = slug.to_owned();
    if !slug_taken(existing_slugs, &base) {
        return base;
    }
    let ghost views = str_views(existing_slugs@);
    let mut k: u64 = 1;
    loop
        invariant
            existing_slugs@.len() < usize::MAX,
            1 <= k,
            k <= existing_slugs.len() + 1,
            forall|j: int| 1 <= j < k ==> slug_list_contains(views, spec_suffixed(slug@, j)),
            views == str_views(existing_slugs@),
            base@ == slug@,
            slug_list_contains(views, slug@),
        decreases existing_slugs.len() + 1 - k,
    {
        let mut candidate = base.clone();
        push_char(&mut candidate, '-');
        push_decimal(&mut candidate, k);
        proof {
            assert(candidate@ =~= spec_suffixed(slug@, k as int));
        }
        if !slug_taken(existing_slugs, &candidate) {
            return candidate;
        }
        proof {
            assert(forall|j: int|
                1 <= j <= k ==> slug_list_contains(views, spec_suffixed(slug@, j)));
            lemma_suffix_bound(views, slug@, k as int);
            assert(views.len() == existing_slugs@.len());
            assert(k < usize::MAX);
        }
        k = k + 1;
    }
}

} // verus!
