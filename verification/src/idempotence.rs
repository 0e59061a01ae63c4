//! Why merging tags twice gives what merging them once gives.
//!
//! The tags of a merged text are read back by splitting at commas, so the property rests
//! on the separator: it holds for one without a comma, and for one made of commas and
//! whitespace only.

use vstd::prelude::*;
use crate::concat::{arranged, gather_tags, tags_of};
use crate::order::{
    insert_sorted, lemma_sorted_distinct, lemma_sorted_distinct_fixed, sorted_distinct,
};
use crate::text::{
    drop_trailing, is_whitespace, join, keep_nonempty, lemma_drop_trailing_result,
    lemma_skip_leading_result, lemma_split_nonempty, lemma_trim_fixed, lemma_trim_result,
    skip_leading, split_by, trim, trim_each, CharClass,
};

verus! {

/// No comma stands in `s`.
pub open spec fn comma_free(s: Seq<char>) -> bool {
    forall|i: int| 0 <= i < s.len() ==> s[i] != ','
}

/// A well-formed tag: not empty, without a comma, without whitespace at its ends.
pub open spec fn is_tag(t: Seq<char>) -> bool {
    t.len() > 0 && comma_free(t) && !is_whitespace(t[0]) && !is_whitespace(t.last())
}

/// Every text of `tags` is a well-formed tag.
pub open spec fn all_tags(tags: Seq<Seq<char>>) -> bool {
    forall|i: int| 0 <= i < tags.len() ==> is_tag(#[trigger] tags[i])
}

/// `s` is made of commas and whitespace only.
pub open spec fn only_commas_and_whitespace(s: Seq<char>) -> bool {
    forall|i: int| 0 <= i < s.len() ==> s[i] == ',' || is_whitespace(#[trigger] s[i])
}

/// A separator after which the tags of a merged text can be read back: one without a
/// comma, or one made of commas and whitespace only.
pub open spec fn plain_separator(sep: Seq<char>) -> bool {
    comma_free(sep) || only_commas_and_whitespace(sep)
}

/// The tags that a list of pieces gives: each piece trimmed, empty ones dropped.
pub open spec fn tags_from(pieces: Seq<Seq<char>>) -> Seq<Seq<char>> {
    keep_nonempty(trim_each(pieces))
}

/// A text without a character of the class is one piece.
pub proof fn lemma_split_single(s: Seq<char>, class: CharClass)
    requires
        forall|i: int| 0 <= i < s.len() ==> !class.has(s[i]),
    ensures
        split_by(s, class) == seq![s],
    decreases s.len(),
{
    if s.len() > 0 {
        let head = s.drop_last();
        lemma_split_single(head, class);
        assert(!class.has(s[s.len() - 1]));
        assert(head.push(s.last()) =~= s);
        assert(seq![head].last() == head);
        assert(seq![head].drop_last().push(s) =~= seq![s]);
    } else {
        assert(s =~= Seq::<char>::empty());
    }
}

/// No piece of a split holds a character of the class.
pub proof fn lemma_pieces_free(s: Seq<char>, class: CharClass)
    ensures
        forall|k: int, i: int|
            0 <= k < split_by(s, class).len() && 0 <= i < split_by(s, class)[k].len()
                ==> !class.has(#[trigger] split_by(s, class)[k][i]),
    decreases s.len(),
{
    if s.len() > 0 {
        lemma_pieces_free(s.drop_last(), class);
        lemma_split_nonempty(s.drop_last(), class);
    }
}

/// Splitting at a character of the class splits what stands before and behind it apart.
pub proof fn lemma_split_at(a: Seq<char>, d: char, b: Seq<char>, class: CharClass)
    requires
        class.has(d),
    ensures
        split_by(a + seq![d] + b, class) == split_by(a, class) + split_by(b, class),
    decreases b.len(),
{
    let whole = a + seq![d] + b;
    lemma_split_nonempty(a, class);
    if b.len() == 0 {
        assert(whole.drop_last() =~= a);
        assert(split_by(a, class).push(Seq::<char>::empty()) =~= split_by(a, class) + split_by(
            b,
            class,
        ));
    } else {
        let short = b.drop_last();
        assert(whole.drop_last() =~= a + seq![d] + short);
        assert(whole.last() == b.last());
        lemma_split_at(a, d, short, class);
        lemma_split_nonempty(short, class);
        let left = split_by(a, class);
        let right = split_by(short, class);
        if class.has(b.last()) {
            assert((left + right).push(Seq::<char>::empty()) =~= left + right.push(
                Seq::<char>::empty(),
            ));
        } else {
            assert((left + right).drop_last().push((left + right).last().push(b.last())) =~= left
                + right.drop_last().push(right.last().push(b.last())));
        }
    }
}

/// The non-empty pieces of two lists, one after the other.
pub proof fn lemma_keep_nonempty_concat(x: Seq<Seq<char>>, y: Seq<Seq<char>>)
    ensures
        keep_nonempty(x + y) == keep_nonempty(x) + keep_nonempty(y),
    decreases y.len(),
{
    if y.len() == 0 {
        assert(x + y =~= x);
        assert(keep_nonempty(x) + keep_nonempty(y) =~= keep_nonempty(x));
    } else {
        assert((x + y).drop_last() =~= x + y.drop_last());
        assert((x + y).last() == y.last());
        lemma_keep_nonempty_concat(x, y.drop_last());
        if y.last().len() > 0 {
            assert((keep_nonempty(x) + keep_nonempty(y.drop_last())).push(y.last())
                =~= keep_nonempty(x) + keep_nonempty(y.drop_last()).push(y.last()));
        }
    }
}

/// The tags of a text with a comma in it are those before the comma and those behind it.
pub proof fn lemma_tags_at_comma(a: Seq<char>, b: Seq<char>)
    ensures
        tags_of(a + seq![','] + b) == tags_of(a) + tags_of(b),
{
    let class = CharClass::Only(',');
    lemma_split_at(a, ',', b, class);
    let x = split_by(a, class);
    let y = split_by(b, class);
    assert(trim_each(x + y) =~= trim_each(x) + trim_each(y));
    lemma_keep_nonempty_concat(trim_each(x), trim_each(y));
}

/// Skipping leading whitespace passes over whitespace that is put in front.
pub proof fn lemma_skip_leading_push(p: Seq<char>, c: char, class: CharClass)
    requires
        class.has(c),
    ensures
        drop_trailing(skip_leading(p.push(c), class), class) == drop_trailing(
            skip_leading(p, class),
            class,
        ),
    decreases p.len(),
{
    if p.len() > 0 && class.has(p[0]) {
        assert(p.push(c).drop_first() =~= p.drop_first().push(c));
        lemma_skip_leading_push(p.drop_first(), c, class);
    } else if p.len() == 0 {
        assert(p.push(c).drop_first() =~= p);
    } else {
        assert(p.push(c).drop_last() =~= p);
    }
}

/// Whitespace behind a text does not change its tags.
pub proof fn lemma_tags_trailing_whitespace(a: Seq<char>, c: char)
    requires
        is_whitespace(c),
    ensures
        tags_of(a.push(c)) == tags_of(a),
{
    let class = CharClass::Only(',');
    let before = split_by(a, class);
    lemma_split_nonempty(a, class);
    assert(a.push(c).drop_last() =~= a);
    let after = split_by(a.push(c), class);
    assert(after == before.drop_last().push(before.last().push(c)));
    lemma_skip_leading_push(before.last(), c, CharClass::Whitespace);
    assert(trim_each(after) =~= trim_each(before));
}

/// Splitting a text with a character put in front that is not of the class puts the
/// character in front of the first piece.
pub proof fn lemma_split_leading(c: char, b: Seq<char>, class: CharClass)
    requires
        !class.has(c),
    ensures
        split_by(seq![c] + b, class).len() == split_by(b, class).len(),
        split_by(b, class).len() >= 1,
        split_by(seq![c] + b, class) == split_by(b, class).update(
            0,
            seq![c] + split_by(b, class)[0],
        ),
    decreases b.len(),
{
    lemma_split_nonempty(b, class);
    let whole = seq![c] + b;
    if b.len() == 0 {
        assert(whole.drop_last() =~= Seq::<char>::empty());
        assert(whole.last() == c);
        let start = seq![Seq::<char>::empty()];
        assert(split_by(Seq::<char>::empty(), class) == start);
        assert(b =~= Seq::<char>::empty());
        assert(start.last().push(c) =~= seq![c] + start[0]);
        assert(start.drop_last().push(start.last().push(c)) =~= start.update(
            0,
            seq![c] + start[0],
        ));
    } else {
        let short = b.drop_last();
        assert(whole.drop_last() =~= seq![c] + short);
        assert(whole.last() == b.last());
        lemma_split_leading(c, short, class);
        lemma_split_nonempty(short, class);
        let old_pieces = split_by(short, class);
        let new_pieces = split_by(seq![c] + short, class);
        if class.has(b.last()) {
            assert(new_pieces.push(Seq::<char>::empty()) =~= old_pieces.push(
                Seq::<char>::empty(),
            ).update(0, seq![c] + old_pieces[0]));
        } else {
            let grown_old = old_pieces.drop_last().push(old_pieces.last().push(b.last()));
            let grown_new = new_pieces.drop_last().push(new_pieces.last().push(b.last()));
            if old_pieces.len() == 1 {
                assert((seq![c] + old_pieces[0]).push(b.last()) =~= seq![c] + old_pieces[0].push(
                    b.last(),
                ));
            }
            assert(grown_new =~= grown_old.update(0, seq![c] + grown_old[0]));
        }
    }
}

/// Whitespace in front of a text does not change its tags.
pub proof fn lemma_tags_leading_whitespace(c: char, b: Seq<char>)
    requires
        is_whitespace(c),
    ensures
        tags_of(seq![c] + b) == tags_of(b),
{
    let class = CharClass::Only(',');
    lemma_split_leading(c, b, class);
    let before = split_by(b, class);
    let after = split_by(seq![c] + b, class);
    assert((seq![c] + before[0]).drop_first() =~= before[0]);
    assert(trim(seq![c] + before[0]) == trim(before[0]));
    assert(trim_each(after) =~= trim_each(before));
}

/// A well-formed tag is its own only tag.
pub proof fn lemma_tags_of_tag(t: Seq<char>)
    requires
        is_tag(t),
    ensures
        tags_of(t) == seq![t],
{
    let class = CharClass::Only(',');
    lemma_split_single(t, class);
    lemma_trim_fixed(t, CharClass::Whitespace);
    assert(trim_each(seq![t]) =~= seq![t]);
    assert(seq![t].drop_last() =~= Seq::<Seq<char>>::empty());
    assert(keep_nonempty(Seq::<Seq<char>>::empty()) =~= Seq::<Seq<char>>::empty());
    assert(seq![t].last() == t);
    assert(Seq::<Seq<char>>::empty().push(t) =~= seq![t]);
    assert(keep_nonempty(seq![t]) =~= seq![t]);
}

/// The empty text has no tags.
pub proof fn lemma_tags_of_empty()
    ensures
        tags_of(Seq::<char>::empty()) == Seq::<Seq<char>>::empty(),
{
    let pieces = seq![Seq::<char>::empty()];
    assert(split_by(Seq::<char>::empty(), CharClass::Only(',')) == pieces);
    assert(trim(Seq::<char>::empty()) =~= Seq::<char>::empty());
    assert(trim_each(pieces) =~= pieces);
    assert(pieces.drop_last() =~= Seq::<Seq<char>>::empty());
    assert(keep_nonempty(Seq::<Seq<char>>::empty()) =~= Seq::<Seq<char>>::empty());
    assert(pieces.last().len() == 0);
}

/// Commas and whitespace in front of a well-formed tag leave it as the only tag.
pub proof fn lemma_tags_behind_separator(u: Seq<char>, t: Seq<char>)
    requires
        only_commas_and_whitespace(u),
        is_tag(t),
    ensures
        tags_of(u + t) == seq![t],
    decreases u.len(),
{
    if u.len() == 0 {
        assert(u + t =~= t);
        lemma_tags_of_tag(t);
    } else {
        let rest = u.drop_first();
        assert forall|i: int| 0 <= i < rest.len() implies rest[i] == ',' || is_whitespace(
            #[trigger] rest[i],
        ) by {
            assert(rest[i] == u[i + 1]);
        }
        lemma_tags_behind_separator(rest, t);
        if u[0] == ',' {
            assert(u + t =~= Seq::<char>::empty() + seq![','] + (rest + t));
            lemma_tags_at_comma(Seq::<char>::empty(), rest + t);
            lemma_tags_of_empty();
            assert(Seq::<Seq<char>>::empty() + seq![t] =~= seq![t]);
        } else {
            assert(is_whitespace(u[0]));
            assert(u + t =~= seq![u[0]] + (rest + t));
            lemma_tags_leading_whitespace(u[0], rest + t);
        }
    }
}

/// A separator of commas and whitespace with a comma in it parts what stands before it
/// from a well-formed tag behind it.
pub proof fn lemma_tags_across_separator(a: Seq<char>, u: Seq<char>, t: Seq<char>)
    requires
        only_commas_and_whitespace(u),
        !comma_free(u),
        is_tag(t),
    ensures
        tags_of(a + u + t) == tags_of(a).push(t),
    decreases u.len(),
{
    assert(u.len() > 0);
    let rest = u.drop_first();
    assert forall|i: int| 0 <= i < rest.len() implies rest[i] == ',' || is_whitespace(
        #[trigger] rest[i],
    ) by {
        assert(rest[i] == u[i + 1]);
    }
    if u[0] == ',' {
        assert(a + u + t =~= a + seq![','] + (rest + t));
        lemma_tags_at_comma(a, rest + t);
        lemma_tags_behind_separator(rest, t);
        assert(tags_of(a) + seq![t] =~= tags_of(a).push(t));
    } else {
        assert(is_whitespace(u[0]));
        assert(!comma_free(rest)) by {
            let i = choose|i: int| 0 <= i < u.len() && u[i] == ',';
            assert(rest[i - 1] == ',');
        }
        assert(a + u + t =~= a.push(u[0]) + rest + t);
        lemma_tags_across_separator(a.push(u[0]), rest, t);
        lemma_tags_trailing_whitespace(a, u[0]);
    }
}

/// Well-formed tags that were joined by commas and whitespace are read back as they were.
pub proof fn lemma_tags_of_join(tags: Seq<Seq<char>>, sep: Seq<char>)
    requires
        all_tags(tags),
        only_commas_and_whitespace(sep),
        !comma_free(sep),
    ensures
        tags_of(join(tags, sep)) == tags,
    decreases tags.len(),
{
    if tags.len() == 0 {
        lemma_tags_of_empty();
    } else if tags.len() == 1 {
        lemma_tags_of_tag(tags[0]);
        assert(seq![tags[0]] =~= tags);
    } else {
        let head = tags.drop_last();
        assert(all_tags(head)) by {
            assert forall|i: int| 0 <= i < head.len() implies is_tag(#[trigger] head[i]) by {
                assert(head[i] == tags[i]);
            }
        }
        lemma_tags_of_join(head, sep);
        assert(is_tag(tags[tags.len() - 1]));
        lemma_tags_across_separator(join(head, sep), sep, tags.last());
        assert(head.push(tags.last()) =~= tags);
    }
}

/// The texts of the non-empty pieces are non-empty pieces.
pub proof fn lemma_keep_nonempty_members(pieces: Seq<Seq<char>>)
    ensures
        forall|i: int|
            0 <= i < keep_nonempty(pieces).len() ==> (#[trigger] keep_nonempty(pieces)[i]).len()
                > 0 && pieces.contains(keep_nonempty(pieces)[i]),
    decreases pieces.len(),
{
    if pieces.len() > 0 {
        let head = pieces.drop_last();
        lemma_keep_nonempty_members(head);
        let kept = keep_nonempty(pieces);
        assert forall|i: int| 0 <= i < kept.len() implies (#[trigger] kept[i]).len() > 0
            && pieces.contains(kept[i]) by {
            if i < keep_nonempty(head).len() {
                assert(head.contains(keep_nonempty(head)[i]));
                let k = choose|k: int| 0 <= k < head.len() && head[k] == keep_nonempty(head)[i];
                assert(pieces[k] == kept[i]);
            } else {
                assert(pieces[pieces.len() - 1] == kept[i]);
            }
        }
    }
}

/// A trimmed text without a comma in the text it was trimmed from has none either.
pub proof fn lemma_trim_comma_free(s: Seq<char>)
    requires
        comma_free(s),
    ensures
        comma_free(trim(s)),
{
    let class = CharClass::Whitespace;
    lemma_skip_leading_result(s, class);
    let r = skip_leading(s, class);
    lemma_drop_trailing_result(r, class);
    let t = drop_trailing(r, class);
    assert forall|i: int| 0 <= i < t.len() implies t[i] != ',' by {
        assert(t[i] == r.take(t.len() as int)[i]);
        assert(r[i] == s.skip(s.len() - r.len())[i]);
    }
}

/// The tags of any text are well-formed.
pub proof fn lemma_tags_are_well_formed(content: Seq<char>)
    ensures
        all_tags(tags_of(content)),
{
    let class = CharClass::Only(',');
    let pieces = split_by(content, class);
    let trimmed = trim_each(pieces);
    lemma_pieces_free(content, class);
    lemma_keep_nonempty_members(trimmed);
    let tags = tags_of(content);
    assert forall|i: int| 0 <= i < tags.len() implies is_tag(#[trigger] tags[i]) by {
        assert(trimmed.contains(tags[i]));
        let k = choose|k: int| 0 <= k < trimmed.len() && trimmed[k] == tags[i];
        assert(trimmed[k] == trim(pieces[k]));
        assert(comma_free(pieces[k])) by {
            assert forall|j: int| 0 <= j < pieces[k].len() implies pieces[k][j] != ',' by {
                assert(!class.has(split_by(content, class)[k][j]));
            }
        }
        lemma_trim_comma_free(pieces[k]);
        lemma_trim_result(pieces[k], CharClass::Whitespace);
    }
}

/// Joined well-formed tags start as the first tag starts and end as the last one ends;
/// they hold a comma only where the separator holds one.
pub proof fn lemma_join_of_tags(tags: Seq<Seq<char>>, sep: Seq<char>)
    requires
        all_tags(tags),
        tags.len() > 0,
    ensures
        join(tags, sep).len() > 0,
        join(tags, sep)[0] == tags[0][0],
        join(tags, sep).last() == tags.last().last(),
        comma_free(sep) ==> comma_free(join(tags, sep)),
    decreases tags.len(),
{
    assert(is_tag(tags[0]));
    assert(is_tag(tags[tags.len() - 1]));
    if tags.len() > 1 {
        let head = tags.drop_last();
        assert(all_tags(head)) by {
            assert forall|i: int| 0 <= i < head.len() implies is_tag(#[trigger] head[i]) by {
                assert(head[i] == tags[i]);
            }
        }
        lemma_join_of_tags(head, sep);
        assert(head[0] == tags[0]);
    }
}

/// The tags gathered from the companions of an item are well-formed.
pub proof fn lemma_gathered_tags_are_well_formed(contents: Seq<Seq<char>>, skip: int)
    ensures
        all_tags(gather_tags(contents, skip)),
    decreases contents.len(),
{
    if contents.len() > 0 {
        lemma_gathered_tags_are_well_formed(contents.drop_last(), skip);
        lemma_tags_are_well_formed(contents.last());
    }
}

/// Merging with deduplication is idempotent: tags that were deduplicated, sorted and
/// joined, then read back from the joined text and deduplicated, sorted and joined again
/// with the same separator, give the same text.
///
/// The tags are well-formed, as all tags read from a text are. The separator has no
/// comma, or is made of commas and whitespace only.
pub proof fn lemma_merge_idempotent(tags: Seq<Seq<char>>, sep: Seq<char>)
    requires
        all_tags(tags),
        plain_separator(sep),
    ensures
        join(arranged(tags_of(join(arranged(tags, true), sep)), true), sep) == join(
            arranged(tags, true),
            sep,
        ),
{
    let sorted = sorted_distinct(tags);
    let once = join(sorted, sep);
    lemma_sorted_distinct(tags);
    assert(all_tags(sorted)) by {
        assert forall|i: int| 0 <= i < sorted.len() implies is_tag(#[trigger] sorted[i]) by {
            assert(sorted.contains(sorted[i]));
            assert(tags.contains(sorted[i]));
            let k = choose|k: int| 0 <= k < tags.len() && tags[k] == sorted[i];
        }
    }
    if sorted.len() == 0 {
        lemma_tags_of_empty();
    } else if comma_free(sep) {
        lemma_join_of_tags(sorted, sep);
        assert(is_tag(sorted[0]));
        assert(is_tag(sorted[sorted.len() - 1]));
        lemma_tags_of_tag(once);
        assert(seq![once].drop_last() =~= Seq::<Seq<char>>::empty());
        assert(sorted_distinct(Seq::<Seq<char>>::empty()) =~= Seq::<Seq<char>>::empty());
        assert(seq![once].last() == once);
        assert(insert_sorted(Seq::<Seq<char>>::empty(), once) =~= seq![once]);
        assert(sorted_distinct(seq![once]) =~= seq![once]);
    } else {
        lemma_tags_of_join(sorted, sep);
        lemma_sorted_distinct_fixed(sorted);
    }
}

} // verus!
