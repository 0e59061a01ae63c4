//! Character-level text primitives shared by the caption and concatenation engines.
//!
//! Every algorithm works on `Vec<char>` and is specified over `Seq<char>`.

use vstd::prelude::*;

verus! {

/// `String::push` appends the character: afterwards the string holds what it held before,
/// followed by `c`.
pub assume_specification[ std::string::String::push ](s: &mut std::string::String, c: char)
    ensures
        final(s)@ == old(s)@.push(c),
;

/// The characters of `s`, in order.
pub fn chars_of(s: &str) -> (v: Vec<char>)
    ensures
        v@ == s@,
{
    let mut v: Vec<char> = Vec::new();
    for c in it: s.chars()
        invariant
            it.seq() == s@,
            v@ == s@.take(it.index()),
    {
        v.push(c);
    }
    v
}

/// The string made of the characters of `v`, in order.
pub fn string_of(v: &Vec<char>) -> (s: String)
    ensures
        s@ == v@,
{
    let mut s = String::new();
    let mut i: usize = 0;
    while i < v.len()
        invariant
            i <= v.len(),
            s@ == v@.take(i as int),
        decreases v.len() - i,
    {
        s.push(v[i]);
        i += 1;
    }
    s
}

/// A set of characters that the text primitives can test membership in.
#[derive(Clone, Copy, Debug)]
pub enum CharClass {
    /// Characters with the Unicode `White_Space` property.
    Whitespace,
    /// Exactly one character.
    Only(char),
    /// The space and the comma.
    SpaceOrComma,
}

/// Whether `c` has the Unicode `White_Space` property.
pub open spec fn is_whitespace(c: char) -> bool {
    let n = c as int;
    ||| 0x09 <= n <= 0x0D
    ||| n == 0x20
    ||| n == 0x85
    ||| n == 0xA0
    ||| n == 0x1680
    ||| 0x2000 <= n <= 0x200A
    ||| n == 0x2028
    ||| n == 0x2029
    ||| n == 0x202F
    ||| n == 0x205F
    ||| n == 0x3000
}

impl CharClass {
    /// Membership of `c` in the class.
    pub open spec fn has(self, c: char) -> bool {
        match self {
            CharClass::Whitespace => is_whitespace(c),
            CharClass::Only(d) => c == d,
            CharClass::SpaceOrComma => c == ' ' || c == ',',
        }
    }

    /// Tests membership of `c` in the class.
    pub fn contains(&self, c: char) -> (b: bool)
        ensures
            b == self.has(c),
    {
        match self {
            CharClass::Whitespace => {
                let n: u32 = c as u32;
                (0x09 <= n && n <= 0x0D) || n == 0x20 || n == 0x85 || n == 0xA0 || n == 0x1680 || (
                0x2000 <= n && n <= 0x200A) || n == 0x2028 || n == 0x2029 || n == 0x202F || n
                    == 0x205F || n == 0x3000
            },
            CharClass::Only(d) => c == *d,
            CharClass::SpaceOrComma => c == ' ' || c == ',',
        }
    }
}

/// `s` without its longest prefix made of characters of `class`.
pub open spec fn skip_leading(s: Seq<char>, class: CharClass) -> Seq<char>
    decreases s.len(),
{
    if s.len() > 0 && class.has(s[0]) {
        skip_leading(s.drop_first(), class)
    } else {
        s
    }
}

/// `s` without its longest suffix made of characters of `class`.
pub open spec fn drop_trailing(s: Seq<char>, class: CharClass) -> Seq<char>
    decreases s.len(),
{
    if s.len() > 0 && class.has(s.last()) {
        drop_trailing(s.drop_last(), class)
    } else {
        s
    }
}

/// `s` with the characters of `class` removed from both ends.
pub open spec fn trim_class(s: Seq<char>, class: CharClass) -> Seq<char> {
    drop_trailing(skip_leading(s, class), class)
}

/// `s` with leading and trailing whitespace removed.
pub open spec fn trim(s: Seq<char>) -> Seq<char> {
    trim_class(s, CharClass::Whitespace)
}

/// Skipping a run of `k` class characters that ends the leading run gives `s.skip(k)`.
pub proof fn lemma_skip_leading(s: Seq<char>, class: CharClass, k: int)
    requires
        0 <= k <= s.len(),
        forall|i: int| 0 <= i < k ==> class.has(#[trigger] s[i]),
        k < s.len() ==> !class.has(s[k]),
    ensures
        skip_leading(s, class) == s.skip(k),
    decreases k,
{
    if k == 0 {
        assert(s.skip(0) =~= s);
    } else {
        let t = s.drop_first();
        assert forall|i: int| 0 <= i < k - 1 implies class.has(#[trigger] t[i]) by {
            assert(t[i] == s[i + 1]);
        }
        lemma_skip_leading(t, class, k - 1);
        assert(t.skip(k - 1) =~= s.skip(k));
    }
}

/// Dropping a trailing run of class characters that starts at `k` gives `s.take(k)`.
pub proof fn lemma_drop_trailing(s: Seq<char>, class: CharClass, k: int)
    requires
        0 <= k <= s.len(),
        forall|i: int| k <= i < s.len() ==> class.has(#[trigger] s[i]),
        k > 0 ==> !class.has(s[k - 1]),
    ensures
        drop_trailing(s, class) == s.take(k),
    decreases s.len() - k,
{
    if k == s.len() {
        assert(s.take(k) =~= s);
    } else {
        let t = s.drop_last();
        assert forall|i: int| k <= i < t.len() implies class.has(#[trigger] t[i]) by {
            assert(t[i] == s[i]);
        }
        lemma_drop_trailing(t, class, k);
        assert(t.take(k) =~= s.take(k));
    }
}

/// What `skip_leading` gives is the end of `s`, no longer than `s`, and does not start
/// with a character of the class.
pub proof fn lemma_skip_leading_result(s: Seq<char>, class: CharClass)
    ensures
        skip_leading(s, class).len() <= s.len(),
        skip_leading(s, class) == s.skip(s.len() - skip_leading(s, class).len()),
        skip_leading(s, class).len() > 0 ==> !class.has(skip_leading(s, class)[0]),
    decreases s.len(),
{
    if s.len() > 0 && class.has(s[0]) {
        let t = s.drop_first();
        lemma_skip_leading_result(t, class);
        let r = skip_leading(t, class);
        assert(t.skip(t.len() - r.len()) =~= s.skip(s.len() - r.len()));
    } else {
        assert(s.skip(0) =~= s);
    }
}

/// What `drop_trailing` gives is the start of `s`, no longer than `s`, and does not end
/// with a character of the class.
pub proof fn lemma_drop_trailing_result(s: Seq<char>, class: CharClass)
    ensures
        drop_trailing(s, class).len() <= s.len(),
        drop_trailing(s, class) == s.take(drop_trailing(s, class).len() as int),
        drop_trailing(s, class).len() > 0 ==> !class.has(drop_trailing(s, class).last()),
    decreases s.len(),
{
    if s.len() > 0 && class.has(s.last()) {
        let t = s.drop_last();
        lemma_drop_trailing_result(t, class);
        let r = drop_trailing(t, class);
        assert(t.take(r.len() as int) =~= s.take(r.len() as int));
    } else {
        assert(s.take(s.len() as int) =~= s);
    }
}

/// A trimmed text is no longer than the text, and neither starts nor ends with a
/// character of the class.
pub proof fn lemma_trim_result(s: Seq<char>, class: CharClass)
    ensures
        trim_class(s, class).len() <= s.len(),
        trim_class(s, class).len() > 0 ==> !class.has(trim_class(s, class)[0]) && !class.has(
            trim_class(s, class).last(),
        ),
{
    lemma_skip_leading_result(s, class);
    lemma_drop_trailing_result(skip_leading(s, class), class);
}

/// Trimming changes nothing in a text that neither starts nor ends with a character of
/// the class.
pub proof fn lemma_trim_fixed(s: Seq<char>, class: CharClass)
    requires
        s.len() > 0 ==> !class.has(s[0]) && !class.has(s.last()),
    ensures
        trim_class(s, class) == s,
{
}

/// The characters of `v` from index `from` up to `to`.
pub(crate) fn copy_range(v: &Vec<char>, from: usize, to: usize) -> (r: Vec<char>)
    requires
        from <= to <= v.len(),
    ensures
        r@ == v@.subrange(from as int, to as int),
{
    let mut r: Vec<char> = Vec::new();
    let mut i: usize = from;
    while i < to
        invariant
            from <= i <= to <= v.len(),
            r@ == v@.subrange(from as int, i as int),
        decreases to - i,
    {
        r.push(v[i]);
        i += 1;
    }
    r
}

/// Removes the characters of `class` from both ends of `v`.
pub fn trim_chars(v: &Vec<char>, class: CharClass) -> (r: Vec<char>)
    ensures
        r@ == trim_class(v@, class),
{
    let n = v.len();
    let mut start: usize = 0;
    while start < n && class.contains(v[start])
        invariant
            start <= n == v.len(),
            forall|i: int| 0 <= i < start ==> class.has(#[trigger] v@[i]),
        decreases n - start,
    {
        start += 1;
    }
    let mut end: usize = n;
    while end > start && class.contains(v[end - 1])
        invariant
            start <= end <= n == v.len(),
            forall|i: int| end <= i < n ==> class.has(#[trigger] v@[i]),
        decreases end,
    {
        end -= 1;
    }
    proof {
        lemma_skip_leading(v@, class, start as int);
        let t = v@.skip(start as int);
        lemma_drop_trailing(t, class, end - start);
        assert(t.take(end - start) =~= v@.subrange(start as int, end as int));
    }
    copy_range(v, start, end)
}

/// The pieces of `s` between the characters of `class`, empty pieces included.
///
/// A text with `n` separating characters has `n + 1` pieces.
pub open spec fn split_by(s: Seq<char>, class: CharClass) -> Seq<Seq<char>>
    decreases s.len(),
{
    if s.len() == 0 {
        seq![Seq::empty()]
    } else {
        let before = split_by(s.drop_last(), class);
        if class.has(s.last()) {
            before.push(Seq::empty())
        } else {
            before.drop_last().push(before.last().push(s.last()))
        }
    }
}

/// A split always yields at least one piece.
pub proof fn lemma_split_nonempty(s: Seq<char>, class: CharClass)
    ensures
        split_by(s, class).len() >= 1,
    decreases s.len(),
{
    if s.len() > 0 {
        lemma_split_nonempty(s.drop_last(), class);
    }
}

/// Splits `s` at every character of `class`.
pub fn split_text(s: &str, class: CharClass) -> (pieces: Vec<String>)
    ensures
        pieces.deep_view() == split_by(s@, class),
{
    let v = chars_of(s);
    let mut pieces: Vec<String> = Vec::new();
    let mut cur: Vec<char> = Vec::new();
    let mut i: usize = 0;
    assert(v@.take(0) =~= Seq::<char>::empty());
    assert(pieces.deep_view().push(cur@) =~= seq![Seq::<char>::empty()]);
    while i < v.len()
        invariant
            i <= v.len(),
            pieces.deep_view().push(cur@) == split_by(v@.take(i as int), class),
        decreases v.len() - i,
    {
        let c = v[i];
        let ghost done = pieces.deep_view();
        let ghost open_piece = cur@;
        proof {
            assert(v@.take(i + 1).drop_last() =~= v@.take(i as int));
            assert(v@.take(i + 1).last() == c);
        }
        if class.contains(c) {
            pieces.push(string_of(&cur));
            cur = Vec::new();
            assert(pieces.deep_view() =~= done.push(open_piece));
        } else {
            cur.push(c);
            assert(done.push(open_piece).drop_last() =~= done);
        }
        i += 1;
    }
    assert(v@.take(v.len() as int) =~= v@);
    let ghost done = pieces.deep_view();
    pieces.push(string_of(&cur));
    assert(pieces.deep_view() =~= done.push(cur@));
    pieces
}

/// The parts written one after another with `sep` between neighbours.
pub open spec fn join(parts: Seq<Seq<char>>, sep: Seq<char>) -> Seq<char>
    decreases parts.len(),
{
    if parts.len() == 0 {
        Seq::empty()
    } else if parts.len() == 1 {
        parts[0]
    } else {
        join(parts.drop_last(), sep) + sep + parts.last()
    }
}

/// Appends the characters of `src` to `dst`.
pub fn extend_chars(dst: &mut Vec<char>, src: &Vec<char>)
    ensures
        final(dst)@ == old(dst)@ + src@,
{
    let mut i: usize = 0;
    while i < src.len()
        invariant
            i <= src.len(),
            dst@ == old(dst)@ + src@.take(i as int),
        decreases src.len() - i,
    {
        dst.push(src[i]);
        i += 1;
        assert(src@.take(i as int) =~= src@.take(i - 1).push(src@[i - 1]));
    }
    assert(src@.take(src.len() as int) =~= src@);
}

/// Joins `parts` with `sep` between neighbours.
pub fn join_text(parts: &[String], sep: &str) -> (r: String)
    ensures
        r@ == join(parts.deep_view(), sep@),
{
    let sep_chars = chars_of(sep);
    let mut r: Vec<char> = Vec::new();
    let mut i: usize = 0;
    while i < parts.len()
        invariant
            i <= parts.len(),
            sep_chars@ == sep@,
            r@ == join(parts.deep_view().take(i as int), sep@),
        decreases parts.len() - i,
    {
        proof {
            let next = parts.deep_view().take(i + 1);
            assert(next.drop_last() =~= parts.deep_view().take(i as int));
            assert(next.last() == parts@[i as int]@);
            if i == 0 {
                assert(next[0] == parts@[0]@);
            }
        }
        if i > 0 {
            extend_chars(&mut r, &sep_chars);
        }
        let part = chars_of(parts[i].as_str());
        extend_chars(&mut r, &part);
        i += 1;
    }
    assert(parts.deep_view().take(parts.len() as int) =~= parts.deep_view());
    string_of(&r)
}

/// Whether the non-empty `pat` stands at the start of `s`.
pub open spec fn starts_with(s: Seq<char>, pat: Seq<char>) -> bool {
    0 < pat.len() <= s.len() && s.take(pat.len() as int) == pat
}

/// The first rule at or after `from` whose pattern stands at the start of `s`.
pub open spec fn first_rule(s: Seq<char>, rules: Seq<(Seq<char>, Seq<char>)>, from: int) -> Option<
    int,
>
    decreases rules.len() - from,
{
    if from < 0 || from >= rules.len() {
        None
    } else if starts_with(s, rules[from].0) {
        Some(from)
    } else {
        first_rule(s, rules, from + 1)
    }
}

/// One left-to-right pass over `s` that replaces each pattern of `rules` by its value.
///
/// At every position the first rule whose pattern stands there is applied and the
/// scan goes on behind the pattern; what a rule writes is never scanned again.
pub open spec fn substitute(s: Seq<char>, rules: Seq<(Seq<char>, Seq<char>)>) -> Seq<char>
    decreases s.len(),
{
    if s.len() == 0 {
        s
    } else {
        match first_rule(s, rules, 0) {
            Some(k) => if 0 <= k < rules.len() && 0 < rules[k].0.len() <= s.len() {
                rules[k].1 + substitute(s.skip(rules[k].0.len() as int), rules)
            } else {
                s
            },
            None => seq![s[0]] + substitute(s.drop_first(), rules),
        }
    }
}

/// `s` with every non-overlapping occurrence of `pat`, leftmost first, replaced by `to`.
/// An empty `pat` occurs nowhere.
pub open spec fn replace_all(s: Seq<char>, pat: Seq<char>, to: Seq<char>) -> Seq<char> {
    substitute(s, seq![(pat, to)])
}

/// A rule found by `first_rule` is in range and its pattern stands at the start of `s`.
pub proof fn lemma_first_rule(s: Seq<char>, rules: Seq<(Seq<char>, Seq<char>)>, from: int)
    requires
        0 <= from,
    ensures
        match first_rule(s, rules, from) {
            Some(k) => from <= k < rules.len() && starts_with(s, rules[k].0) && forall|j: int|
                from <= j < k ==> !starts_with(s, #[trigger] rules[j].0),
            None => forall|j: int| from <= j < rules.len() ==> !starts_with(s, #[trigger] rules[j].0),
        },
    decreases rules.len() - from,
{
    if from < rules.len() && !starts_with(s, rules[from].0) {
        lemma_first_rule(s, rules, from + 1);
    }
}

/// Whether `pat` stands in `v` at index `at`.
pub(crate) fn matches_at(v: &Vec<char>, at: usize, pat: &Vec<char>) -> (b: bool)
    requires
        at <= v.len(),
    ensures
        b == starts_with(v@.skip(at as int), pat@),
{
    let m = pat.len();
    if m == 0 || m > v.len() - at {
        return false;
    }
    let mut j: usize = 0;
    while j < m
        invariant
            j <= m == pat.len(),
            0 < m <= v.len() - at,
            forall|k: int| 0 <= k < j ==> v@[at + k] == pat@[k],
        decreases m - j,
    {
        if v[at + j] != pat[j] {
            proof {
                let t = v@.skip(at as int).take(m as int);
                assert(t[j as int] == v@[at + j]);
            }
            return false;
        }
        j += 1;
    }
    assert(v@.skip(at as int).take(m as int) =~= pat@);
    true
}

/// Applies `rules` to `s` in one left-to-right pass.
pub fn substitute_text(s: &str, rules: &Vec<(String, String)>) -> (r: String)
    ensures
        r@ == substitute(s@, rules.deep_view()),
{
    let v = chars_of(s);
    let mut pats: Vec<Vec<char>> = Vec::new();
    let mut vals: Vec<Vec<char>> = Vec::new();
    let mut k: usize = 0;
    while k < rules.len()
        invariant
            k <= rules.len(),
            pats.len() == k,
            vals.len() == k,
            forall|j: int| 0 <= j < k ==> (#[trigger] pats@[j])@ == rules.deep_view()[j].0,
            forall|j: int| 0 <= j < k ==> (#[trigger] vals@[j])@ == rules.deep_view()[j].1,
        decreases rules.len() - k,
    {
        pats.push(chars_of(rules[k].0.as_str()));
        vals.push(chars_of(rules[k].1.as_str()));
        k += 1;
    }
    let ghost spec_rules = rules.deep_view();
    let mut out: Vec<char> = Vec::new();
    let mut i: usize = 0;
    assert(v@.skip(0) =~= v@);
    while i < v.len()
        invariant
            i <= v.len(),
            v@ == s@,
            spec_rules == rules.deep_view(),
            pats.len() == rules.len(),
            vals.len() == rules.len(),
            spec_rules.len() == rules.len(),
            forall|j: int| 0 <= j < rules.len() ==> (#[trigger] pats@[j])@ == spec_rules[j].0,
            forall|j: int| 0 <= j < rules.len() ==> (#[trigger] vals@[j])@ == spec_rules[j].1,
            out@ + substitute(v@.skip(i as int), spec_rules) == substitute(v@, spec_rules),
        decreases v.len() - i,
    {
        let ghost rest = v@.skip(i as int);
        let mut hit: Option<usize> = None;
        let mut j: usize = 0;
        while j < pats.len() && hit.is_none()
            invariant
                j <= pats.len() == rules.len(),
                i < v.len(),
                rest == v@.skip(i as int),
                spec_rules.len() == rules.len(),
                forall|q: int| 0 <= q < rules.len() ==> (#[trigger] pats@[q])@ == spec_rules[q].0,
                match hit {
                    Some(h) => h < rules.len() && first_rule(rest, spec_rules, 0) == Some(h as int),
                    None => first_rule(rest, spec_rules, 0) == first_rule(rest, spec_rules, j as int),
                },
            decreases pats.len() - j, if hit.is_none() { 1int } else { 0int },
        {
            if matches_at(&v, i, &pats[j]) {
                hit = Some(j);
            } else {
                j += 1;
            }
        }
        match hit {
            Some(h) => {
                proof {
                    lemma_first_rule(rest, spec_rules, 0);
                    assert(rest.skip(spec_rules[h as int].0.len() as int) =~= v@.skip(
                        i + pats@[h as int]@.len(),
                    ));
                    assert(out@ + (spec_rules[h as int].1 + substitute(
                        rest.skip(spec_rules[h as int].0.len() as int),
                        spec_rules,
                    )) =~= (out@ + spec_rules[h as int].1) + substitute(
                        rest.skip(spec_rules[h as int].0.len() as int),
                        spec_rules,
                    ));
                }
                extend_chars(&mut out, &vals[h]);
                i += pats[h].len();
            },
            None => {
                proof {
                    assert(rest.drop_first() =~= v@.skip(i + 1));
                    assert(out@ + (seq![rest[0]] + substitute(rest.drop_first(), spec_rules))
                        =~= out@.push(v@[i as int]) + substitute(rest.drop_first(), spec_rules));
                }
                out.push(v[i]);
                i += 1;
            },
        }
    }
    assert(substitute(v@.skip(v.len() as int), spec_rules) =~= Seq::<char>::empty());
    assert(out@ + Seq::<char>::empty() =~= out@);
    string_of(&out)
}

/// Replaces every non-overlapping occurrence of `pat` in `s`, leftmost first, by `to`.
/// An empty `pat` occurs nowhere.
pub fn replace_text(s: &str, pat: &str, to: &str) -> (r: String)
    ensures
        r@ == replace_all(s@, pat@, to@),
{
    let mut rules: Vec<(String, String)> = Vec::new();
    rules.push((pat.to_owned(), to.to_owned()));
    assert(rules.deep_view() =~= seq![(pat@, to@)]);
    substitute_text(s, &rules)
}

/// Removes the characters of `class` from both ends of `s`.
pub fn trim_text(s: &str, class: CharClass) -> (r: String)
    ensures
        r@ == trim_class(s@, class),
{
    let v = chars_of(s);
    let t = trim_chars(&v, class);
    string_of(&t)
}

/// Whether two texts hold the same characters.
pub fn text_eq(a: &str, b: &str) -> (r: bool)
    ensures
        r == (a@ == b@),
{
    let x = chars_of(a);
    let y = chars_of(b);
    if x.len() != y.len() {
        return false;
    }
    let mut i: usize = 0;
    while i < x.len()
        invariant
            i <= x.len() == y.len(),
            x@ == a@,
            y@ == b@,
            forall|k: int| 0 <= k < i ==> x@[k] == y@[k],
        decreases x.len() - i,
    {
        if x[i] != y[i] {
            return false;
        }
        i += 1;
    }
    assert(x@ =~= y@);
    true
}

/// The pieces of `pieces` that are not empty, in order.
pub open spec fn keep_nonempty(pieces: Seq<Seq<char>>) -> Seq<Seq<char>>
    decreases pieces.len(),
{
    if pieces.len() == 0 {
        Seq::empty()
    } else if pieces.last().len() == 0 {
        keep_nonempty(pieces.drop_last())
    } else {
        keep_nonempty(pieces.drop_last()).push(pieces.last())
    }
}

/// Each piece with surrounding whitespace removed.
pub open spec fn trim_each(pieces: Seq<Seq<char>>) -> Seq<Seq<char>> {
    Seq::new(pieces.len(), |i: int| trim(pieces[i]))
}

/// The whitespace-separated words of `s`.
pub open spec fn words(s: Seq<char>) -> Seq<Seq<char>> {
    keep_nonempty(split_by(s, CharClass::Whitespace))
}

/// `s` with every run of whitespace turned into one space and none at the ends.
pub open spec fn collapse_whitespace(s: Seq<char>) -> Seq<char> {
    join(words(s), seq![' '])
}

/// Drops the empty strings of `pieces`.
pub fn drop_empty(pieces: Vec<String>) -> (r: Vec<String>)
    ensures
        r.deep_view() == keep_nonempty(pieces.deep_view()),
{
    let mut r: Vec<String> = Vec::new();
    let mut i: usize = 0;
    assert(pieces.deep_view().take(0) =~= Seq::<Seq<char>>::empty());
    assert(r.deep_view() =~= Seq::<Seq<char>>::empty());
    while i < pieces.len()
        invariant
            i <= pieces.len(),
            r.deep_view() == keep_nonempty(pieces.deep_view().take(i as int)),
        decreases pieces.len() - i,
    {
        let ghost before = r.deep_view();
        proof {
            let next = pieces.deep_view().take(i + 1);
            assert(next.drop_last() =~= pieces.deep_view().take(i as int));
            assert(next.last() == pieces@[i as int]@);
        }
        if !pieces[i].as_str().is_empty() {
            r.push(pieces[i].clone());
            assert(r.deep_view() =~= before.push(pieces@[i as int]@));
        }
        i += 1;
    }
    assert(pieces.deep_view().take(pieces.len() as int) =~= pieces.deep_view());
    r
}

/// Trims whitespace from each string of `pieces`.
pub fn trim_all(pieces: &Vec<String>) -> (r: Vec<String>)
    ensures
        r.deep_view() == trim_each(pieces.deep_view()),
{
    let mut r: Vec<String> = Vec::new();
    let mut i: usize = 0;
    while i < pieces.len()
        invariant
            i <= pieces.len(),
            r.len() == i,
            forall|k: int| 0 <= k < i ==> (#[trigger] r@[k])@ == trim(pieces@[k]@),
        decreases pieces.len() - i,
    {
        r.push(trim_text(pieces[i].as_str(), CharClass::Whitespace));
        i += 1;
    }
    assert(r.deep_view() =~= trim_each(pieces.deep_view()));
    r
}

/// Turns every run of whitespace in `s` into one space and removes it at the ends.
pub fn collapse_whitespace_text(s: &str) -> (r: String)
    ensures
        r@ == collapse_whitespace(s@),
{
    let parts = drop_empty(split_text(s, CharClass::Whitespace));
    proof {
        reveal_strlit(" ");
        assert(" "@ =~= seq![' ']);
    }
    join_text(&parts, " ")
}

/// The lowercase form of `s`.
pub uninterp spec fn lowercased(s: Seq<char>) -> Seq<char>;

/// Calls `str::to_lowercase`.
///
/// The result is the lowercase equivalent of the text as the standard library maps it; it
/// depends on the text alone.
#[verifier::external_body]
pub(crate) fn to_lowercase(s: &str) -> (r: String)
    ensures
        r@ == lowercased(s@),
{
    s.to_lowercase()
}

/// The first index at or after `from` at which the non-empty `pat` stands in `s`.
pub open spec fn find_from(s: Seq<char>, pat: Seq<char>, from: int) -> Option<int>
    decreases s.len() - from,
{
    if from < 0 || from >= s.len() {
        None
    } else if starts_with(s.skip(from), pat) {
        Some(from)
    } else {
        find_from(s, pat, from + 1)
    }
}

/// What stands in `s` before the first occurrence of `pat`: all of `s` where there is none.
pub open spec fn before_first(s: Seq<char>, pat: Seq<char>) -> Seq<char> {
    match find_from(s, pat, 0) {
        Some(i) => s.take(i),
        None => s,
    }
}

/// What stands in `s` behind the first occurrence of `pat`.
pub open spec fn after_first(s: Seq<char>, pat: Seq<char>) -> Option<Seq<char>> {
    match find_from(s, pat, 0) {
        Some(i) => Some(s.skip(i + pat.len())),
        None => None,
    }
}

/// Where `find_from` finds the pattern it stands, within the text.
pub proof fn lemma_find_from(s: Seq<char>, pat: Seq<char>, from: int)
    requires
        0 <= from,
    ensures
        find_from(s, pat, from) matches Some(i) ==> from <= i && i + pat.len() <= s.len(),
    decreases s.len() - from,
{
    if from < s.len() && !starts_with(s.skip(from), pat) {
        lemma_find_from(s, pat, from + 1);
    }
}

/// Cuts `s` at the first occurrence of `pat`: what stands before it, and what stands
/// behind it where it occurs.
pub fn cut_at_first(s: &str, pat: &str) -> (r: (String, Option<String>))
    ensures
        r.0@ == before_first(s@, pat@),
        r.1.deep_view() == after_first(s@, pat@),
{
    let v = chars_of(s);
    let p = chars_of(pat);
    let mut i: usize = 0;
    while i < v.len()
        invariant
            i <= v.len(),
            v@ == s@,
            p@ == pat@,
            find_from(v@, p@, 0) == find_from(v@, p@, i as int),
        decreases v.len() - i,
    {
        if matches_at(&v, i, &p) {
            proof {
                lemma_find_from(v@, p@, i as int);
            }
            let head = copy_range(&v, 0, i);
            let tail = copy_range(&v, i + p.len(), v.len());
            assert(v@.subrange(0, i as int) =~= v@.take(i as int));
            assert(v@.subrange(i + p.len(), v.len() as int) =~= v@.skip(i + p.len()));
            return (string_of(&head), Some(string_of(&tail)));
        }
        i += 1;
    }
    (string_of(&v), None)
}

} // verus!
