//! File names for the extracted sounds: made safe for file systems and unique
//! without regard to case.

use crate::text::{decimal, digit_char, is_white_space, is_white_space_char, padded_decimal, push_char, push_decimal, push_padded_decimal, push_str};
use vstd::pervasive::unreached;
use vstd::prelude::*;
use vstd::string::*;

verus! {

/// The characters trimmed off names: dots (`dots`), or whitespace.
pub open spec fn strip_char(c: char, dots: bool) -> bool {
    if dots { c == '.' } else { is_white_space(c) }
}

/// `s` without dots (`dots`) or whitespace at its start.
pub open spec fn strip_start(s: Seq<char>, dots: bool) -> Seq<char>
    decreases s.len(),
{
    if s.len() > 0 && strip_char(s[0], dots) {
        strip_start(s.drop_first(), dots)
    } else {
        s
    }
}

/// `s` without dots (`dots`) or whitespace at its end.
pub open spec fn strip_end(s: Seq<char>, dots: bool) -> Seq<char>
    decreases s.len(),
{
    if s.len() > 0 && strip_char(s.last(), dots) {
        strip_end(s.drop_last(), dots)
    } else {
        s
    }
}

/// `s` without dots (`dots`) or whitespace at either end.
pub open spec fn strip(s: Seq<char>, dots: bool) -> Seq<char> {
    strip_end(strip_start(s, dots), dots)
}

/// Characters that file systems do not accept in a name, and NUL.
pub open spec fn is_unsafe_char(c: char) -> bool {
    c == '/' || c == '\\' || c == ':' || c == '*' || c == '?' || c == '"' || c == '<' || c == '>'
        || c == '|' || c == '\0'
}

/// A character of a name as a file name holds it.
pub open spec fn safe_char(c: char) -> char {
    if is_unsafe_char(c) { '_' } else { c }
}

/// Name used when an IT name leaves nothing: "sample_" and the number, at least three digits.
pub open spec fn fallback_name(n: nat) -> Seq<char> {
    "sample_"@ + if n < 1000 { padded_decimal(n, 3) } else { decimal(n) }
}

/// File-name stem for an IT name: trimmed, unsafe characters replaced by `_`, dots and then
/// whitespace trimmed off the ends; the fallback name where nothing is left.
pub open spec fn sanitized(name: Seq<char>, fallback_num: nat) -> Seq<char> {
    let trimmed = strip(name, false);
    let safe = strip(strip(trimmed.map_values(|c: char| safe_char(c)), true), false);
    if trimmed.len() == 0 || safe.len() == 0 {
        fallback_name(fallback_num)
    } else {
        safe
    }
}

proof fn lemma_strip_start(s: Seq<char>, dots: bool, k: int)
    requires
        0 <= k <= s.len(),
        forall|j: int| 0 <= j < k ==> strip_char(#[trigger] s[j], dots),
        k == s.len() || !strip_char(s[k], dots),
    ensures
        strip_start(s, dots) == s.subrange(k, s.len() as int),
    decreases k,
{
    if k == 0 {
        assert(s.subrange(0, s.len() as int) =~= s);
    } else {
        let t = s.drop_first();
        assert forall|j: int| 0 <= j < k - 1 implies strip_char(#[trigger] t[j], dots) by {
            assert(t[j] == s[j + 1]);
        }
        assert(k - 1 == t.len() || !strip_char(t[k - 1], dots));
        lemma_strip_start(t, dots, k - 1);
        assert(t.subrange(k - 1, t.len() as int) =~= s.subrange(k, s.len() as int));
    }
}

proof fn lemma_strip_end(s: Seq<char>, dots: bool, k: int)
    requires
        0 <= k <= s.len(),
        forall|j: int| k <= j < s.len() ==> strip_char(#[trigger] s[j], dots),
        k == 0 || !strip_char(s[k - 1], dots),
    ensures
        strip_end(s, dots) == s.subrange(0, k),
    decreases s.len() - k,
{
    if k == s.len() {
        assert(s.subrange(0, k) =~= s);
    } else {
        let t = s.drop_last();
        assert forall|j: int| k <= j < t.len() implies strip_char(#[trigger] t[j], dots) by {
            assert(t[j] == s[j]);
        }
        lemma_strip_end(t, dots, k);
        assert(t.subrange(0, k) =~= s.subrange(0, k));
    }
}

/// The characters of `s`.
fn chars_of(s: &str) -> (v: Vec<char>)
    ensures
        v@ == s@,
{
    let n = s.unicode_len();
    let mut v: Vec<char> = Vec::new();
    let mut i: usize = 0;
    while i < n
        invariant
            i <= n,
            n == s@.len(),
            v@ == s@.subrange(0, i as int),
        decreases n - i,
    {
        v.push(s.get_char(i));
        i = i + 1;
        assert(v@ =~= s@.subrange(0, i as int));
    }
    assert(s@.subrange(0, n as int) =~= s@);
    v
}

fn strippable(c: char, dots: bool) -> (r: bool)
    ensures
        r == strip_char(c, dots),
{
    if dots { c == '.' } else { is_white_space_char(c) }
}

/// Bounds `[start, end)` of `v` without whitespace (`dots` false) or dots (`dots` true)
/// at either end.
fn strip_bounds(v: &Vec<char>, dots: bool) -> (r: (usize, usize))
    ensures
        r.0 <= r.1 <= v@.len(),
        v@.subrange(r.0 as int, r.1 as int) == strip(v@, dots),
{
    let n = v.len();
    let mut start: usize = 0;
    while start < n && strippable(v[start], dots)
        invariant
            start <= n,
            n == v@.len(),
            forall|j: int| 0 <= j < start ==> strip_char(#[trigger] v@[j], dots),
        decreases n - start,
    {
        start = start + 1;
    }
    proof {
        lemma_strip_start(v@, dots, start as int);
    }
    let ghost rest = v@.subrange(start as int, n as int);
    let mut end: usize = n;
    while end > start && strippable(v[end - 1], dots)
        invariant
            start <= end <= n,
            n == v@.len(),
            rest == v@.subrange(start as int, n as int),
            forall|j: int| end <= j < n ==> strip_char(#[trigger] v@[j], dots),
        decreases end - start,
    {
        end = end - 1;
    }
    proof {
        let k = end - start;
        assert forall|j: int| k <= j < rest.len() implies strip_char(#[trigger] rest[j], dots) by {
            assert(rest[j] == v@[start + j]);
        }
        if k > 0 {
            assert(rest[k - 1] == v@[end - 1]);
        }
        lemma_strip_end(rest, dots, k as int);
        assert(rest.subrange(0, k as int) =~= v@.subrange(start as int, end as int));
    }
    (start, end)
}

/// The characters `v[start..end]` as a string.
fn string_of(v: &Vec<char>, start: usize, end: usize) -> (s: String)
    requires
        start <= end <= v@.len(),
    ensures
        s@ == v@.subrange(start as int, end as int),
{
    let mut s = String::new();
    let mut i: usize = start;
    while i < end
        invariant
            start <= i <= end <= v@.len(),
            s@ == v@.subrange(start as int, i as int),
        decreases end - i,
    {
        push_char(&mut s, v[i]);
        i = i + 1;
        assert(s@ =~= v@.subrange(start as int, i as int));
    }
    s
}

/// The fallback name for entry `n`.
fn push_fallback(s: &mut String, n: usize)
    ensures
        final(s)@ == old(s)@ + fallback_name(n as nat),
{
    push_str(s, "sample_");
    if n < 1000 {
        push_padded_decimal(s, n as u64, 3);
    } else {
        push_decimal(s, n as u64);
    }
    assert(s@ =~= old(s)@ + fallback_name(n as nat));
}

/// Sanitizes an IT name for use as a file-name stem, falling back to a numbered name.
pub fn sanitize_name(name: &str, fallback_num: usize) -> (r: String)
    ensures
        r@ == sanitized(name@, fallback_num as nat),
{
    let chars = chars_of(name);
    let (a, b) = strip_bounds(&chars, false);
    let ghost trimmed = chars@.subrange(a as int, b as int);
    if a == b {
        let mut s = String::new();
        push_fallback(&mut s, fallback_num);
        assert(s@ =~= sanitized(name@, fallback_num as nat));
        return s;
    }
    // Replace characters not safe for file names
    let mut safe: Vec<char> = Vec::new();
    let mut i: usize = a;
    while i < b
        invariant
            a <= i <= b <= chars@.len(),
            trimmed == chars@.subrange(a as int, b as int),
            safe@ == trimmed.subrange(0, i - a).map_values(|c: char| safe_char(c)),
        decreases b - i,
    {
        let c = chars[i];
        let d = if c == '/' || c == '\\' || c == ':' || c == '*' || c == '?' || c == '"' || c == '<'
            || c == '>' || c == '|' || c == '\0' {
            '_'
        } else {
            c
        };
        safe.push(d);
        i = i + 1;
        assert(safe@ =~= trimmed.subrange(0, i - a).map_values(|c: char| safe_char(c)));
    }
    assert(trimmed.subrange(0, b - a) =~= trimmed);
    let (c0, c1) = strip_bounds(&safe, true);
    let dotless = string_of(&safe, c0, c1);
    let chars2 = chars_of(dotless.as_str());
    let (e0, e1) = strip_bounds(&chars2, false);
    if e0 == e1 {
        let mut s = String::new();
        push_fallback(&mut s, fallback_num);
        assert(s@ =~= sanitized(name@, fallback_num as nat));
        return s;
    }
    let r = string_of(&chars2, e0, e1);
    assert(r@ =~= sanitized(name@, fallback_num as nat));
    r
}

/// No character of `s` is one that file systems refuse.
pub open spec fn all_safe(s: Seq<char>) -> bool {
    forall|i: int| 0 <= i < s.len() ==> !is_unsafe_char(#[trigger] s[i])
}

proof fn lemma_strip_keeps_safe(s: Seq<char>, dots: bool)
    requires
        all_safe(s),
    ensures
        all_safe(strip_start(s, dots)),
        all_safe(strip_end(s, dots)),
    decreases s.len(),
{
    if s.len() > 0 {
        let t = s.drop_first();
        let u = s.drop_last();
        assert forall|i: int| 0 <= i < t.len() implies !is_unsafe_char(#[trigger] t[i]) by {
            assert(t[i] == s[i + 1]);
        }
        assert forall|i: int| 0 <= i < u.len() implies !is_unsafe_char(#[trigger] u[i]) by {
            assert(u[i] == s[i]);
        }
        lemma_strip_keeps_safe(t, dots);
        lemma_strip_keeps_safe(u, dots);
    }
}

proof fn lemma_padded_decimal_digits(n: nat, width: nat)
    ensures
        all_safe(padded_decimal(n, width)),
    decreases width,
{
    if width > 0 {
        lemma_padded_decimal_digits(n / 10, (width - 1) as nat);
        let p = padded_decimal(n / 10, (width - 1) as nat);
        let q = padded_decimal(n, width);
        assert forall|i: int| 0 <= i < q.len() implies !is_unsafe_char(#[trigger] q[i]) by {
            if i < p.len() {
                assert(q[i] == p[i]);
            } else {
                assert(q[i] == digit_char((n % 10) as int));
            }
        }
    }
}

proof fn lemma_decimal_digits(n: nat)
    ensures
        all_safe(decimal(n)),
    decreases n,
{
    if n >= 10 {
        lemma_decimal_digits(n / 10);
        let p = decimal(n / 10);
        let q = decimal(n);
        assert forall|i: int| 0 <= i < q.len() implies !is_unsafe_char(#[trigger] q[i]) by {
            if i < p.len() {
                assert(q[i] == p[i]);
            } else {
                assert(q[i] == digit_char((n % 10) as int));
            }
        }
    }
}

/// A sanitized name is never empty and holds no character that file systems refuse.
pub proof fn lemma_sanitized_is_safe(name: Seq<char>, fallback_num: nat)
    ensures
        sanitized(name, fallback_num).len() > 0,
        all_safe(sanitized(name, fallback_num)),
{
    let trimmed = strip(name, false);
    let mapped = trimmed.map_values(|c: char| safe_char(c));
    assert(all_safe(mapped));
    lemma_strip_keeps_safe(mapped, true);
    let dotless = strip(mapped, true);
    lemma_strip_keeps_safe(strip_start(mapped, true), true);
    lemma_strip_keeps_safe(dotless, false);
    lemma_strip_keeps_safe(strip_start(dotless, false), false);
    let f = fallback_name(fallback_num);
    reveal_strlit("sample_");
    let digits = if fallback_num < 1000 { padded_decimal(fallback_num, 3) } else { decimal(fallback_num) };
    lemma_padded_decimal_digits(fallback_num, 3);
    lemma_decimal_digits(fallback_num);
    assert forall|i: int| 0 <= i < f.len() implies !is_unsafe_char(#[trigger] f[i]) by {
        if i >= 7 {
            assert(f[i] == digits[i - 7]);
        }
    }
}

/// Name for what std's `str::to_lowercase` gives of a text.
pub uninterp spec fn lowercase_text(s: Seq<char>) -> Seq<char>;

/// The lowercase form of `s` (std's `str::to_lowercase`). The contract only names the
/// result: it does not state Unicode's case mapping.
#[verifier::external_body]
fn to_lowercase(s: &str) -> (r: String)
    ensures
        r@ == lowercase_text(s@),
{
    s.to_lowercase()
}

/// A name with a number appended: "name (n)".
pub open spec fn numbered(name: Seq<char>, n: int) -> Seq<char> {
    name + " ("@ + decimal(n as nat) + ")"@
}

/// The texts of the used names.
pub open spec fn keys_of(used: Seq<String>) -> Seq<Seq<char>> {
    used.map_values(|s: String| s@)
}

/// `key` is among the used (lowercase) names.
pub open spec fn is_taken(keys: Seq<Seq<char>>, key: Seq<char>) -> bool {
    exists|i: int| 0 <= i < keys.len() && #[trigger] keys[i] == key
}

/// The first number from `k` on (up to `u32::MAX`) whose numbered name is free.
pub open spec fn first_free(name: Seq<char>, used: Seq<Seq<char>>, k: int) -> int
    decreases u32::MAX - k,
{
    if k >= u32::MAX || !is_taken(used, lowercase_text(numbered(name, k))) {
        k
    } else {
        first_free(name, used, k + 1)
    }
}

/// A unique name can be found: the name is free, or some numbered form up to `u32::MAX` is.
pub open spec fn unique_name_fits(name: Seq<char>, used: Seq<Seq<char>>) -> bool {
    !is_taken(used, lowercase_text(name)) || !is_taken(
        used,
        lowercase_text(numbered(name, first_free(name, used, 2))),
    )
}

/// The unique name: the name itself when its lowercase form is free, else its first
/// numbered form, from 2 on, whose lowercase form is free.
pub open spec fn unique_name(name: Seq<char>, used: Seq<Seq<char>>) -> Seq<char> {
    if !is_taken(used, lowercase_text(name)) {
        name
    } else {
        numbered(name, first_free(name, used, 2))
    }
}

fn is_used(used: &Vec<String>, key: &String) -> (r: bool)
    ensures
        r == is_taken(keys_of(used@), key@),
{
    let mut i: usize = 0;
    while i < used.len()
        invariant
            i <= used@.len(),
            forall|j: int| 0 <= j < i ==> used@[j]@ != key@,
        decreases used@.len() - i,
    {
        assert(keys_of(used@).len() == used@.len());
        if used[i] == *key {
            assert(keys_of(used@)[i as int] == key@);
            return true;
        }
        i = i + 1;
    }
    false
}

/// The unique name for `name`, or `None` where every numbered form up to `u32::MAX` is taken.
fn find_unique_name(name: &str, used: &Vec<String>) -> (r: Option<String>)
    ensures
        r is Some <==> unique_name_fits(name@, keys_of(used@)),
        r matches Some(s) ==> s@ == unique_name(name@, keys_of(used@)),
{
    let lower = to_lowercase(name);
    if !is_used(used, &lower) {
        return Some(name.to_owned());
    }
    let mut n: u32 = 2;
    loop
        invariant
            2 <= n,
            is_taken(keys_of(used@), lowercase_text(name@)),
            first_free(name@, keys_of(used@), 2) == first_free(name@, keys_of(used@), n as int),
        decreases u32::MAX - n,
    {
        let mut candidate = name.to_owned();
        push_str(&mut candidate, " (");
        push_decimal(&mut candidate, n as u64);
        push_str(&mut candidate, ")");
        assert(candidate@ =~= numbered(name@, n as int));
        let lower = to_lowercase(candidate.as_str());
        if !is_used(used, &lower) {
            return Some(candidate);
        }
        if n == u32::MAX {
            return None;
        }
        n = n + 1;
    }
}

/// Makes `name` unique within the used names, appending " (2)", " (3)", ... where its
/// lowercase form is taken, and records the lowercase form of the result.
pub fn make_unique_name(name: &str, used: &mut Vec<String>) -> (r: String)
    requires
        unique_name_fits(name@, keys_of(old(used)@)),
    ensures
        r@ == unique_name(name@, keys_of(old(used)@)),
        keys_of(final(used)@) == keys_of(old(used)@).push(lowercase_text(r@)),
        all_distinct(keys_of(old(used)@)) ==> all_distinct(keys_of(final(used)@)),
{
    let r = match find_unique_name(name, used) {
        Some(r) => r,
        None => unreached(),
    };
    let lower = to_lowercase(r.as_str());
    used.push(lower);
    assert(keys_of(used@) =~= keys_of(old(used)@).push(lowercase_text(r@)));
    proof {
        if all_distinct(keys_of(old(used)@)) {
            lemma_unique_name_is_new(name@, keys_of(old(used)@));
        }
    }
    r
}

/// As `make_unique_name`, or `None`, with `used` left as it is, where every numbered form
/// up to `u32::MAX` is taken.
pub fn checked_make_unique_name(name: &str, used: &mut Vec<String>) -> (r: Option<String>)
    ensures
        r is Some <==> unique_name_fits(name@, keys_of(old(used)@)),
        match r {
            Some(s) => {
                &&& s@ == unique_name(name@, keys_of(old(used)@))
                &&& keys_of(final(used)@) == keys_of(old(used)@).push(lowercase_text(s@))
            },
            None => final(used)@ == old(used)@,
        },
        all_distinct(keys_of(old(used)@)) ==> all_distinct(keys_of(final(used)@)),
{
    match find_unique_name(name, used) {
        Some(_) => Some(make_unique_name(name, used)),
        None => None,
    }
}

/// No two used names are the same.
pub open spec fn all_distinct(keys: Seq<Seq<char>>) -> bool {
    forall|i: int, j: int| 0 <= i < j < keys.len() ==> keys[i] != keys[j]
}

/// Making a name unique keeps the used names pairwise distinct: the lowercase form of the
/// unique name was not yet among them.
pub proof fn lemma_unique_name_is_new(name: Seq<char>, used: Seq<Seq<char>>)
    requires
        all_distinct(used),
        unique_name_fits(name, used),
    ensures
        !is_taken(used, lowercase_text(unique_name(name, used))),
        all_distinct(used.push(lowercase_text(unique_name(name, used)))),
{
    let u = used.push(lowercase_text(unique_name(name, used)));
    assert forall|i: int, j: int| 0 <= i < j < u.len() implies u[i] != u[j] by {
        if j == used.len() {
            assert(u[i] == used[i]);
        } else {
            assert(u[i] == used[i] && u[j] == used[j]);
        }
    }
}

} // verus!
