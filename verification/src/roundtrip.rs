use vstd::prelude::*;

use crate::grammar::{
    match_middle_and_last, match_relation, match_relation_with_alias, match_rest, match_text,
    match_text_with_alias, no_line_feed, space_alias_word, alias_word, body_start, has_word_at, match_add_tags, match_remove_tags, match_set_alias,
    match_tags, may_word, not_tag_words, spaced_tokens, spaces_before, spaces_from,
    split_at_spaces, tag_word, token_from, token_start_before,
};
use crate::strings::{is_white_space, no_white_space};
use crate::command::{first_forms_refused, read_as, resolved_by, set_alias_ready, tags_ready, CommandView};
use crate::resolver::{known_lookup, AliasesResolver};
use crate::document_id::{b64_value, id_text, lemma_encode_in_alphabet, lemma_encode_len};
use crate::relation::RelationView;
use crate::reference::{lemma_reference_of_id_text, reference_of, ReferenceView};
use crate::relation_kind::RelationKind;
use crate::resolver::{lemma_own_pieces_read, text_as_read, text_ids_sized, LocalAliasesResolver};
use crate::text::{labelled_text, lemma_labelled_raw, raw_text, EntityView};
use crate::transaction::{alias_in, ReadTransactionMethods};
use crate::thesis::ThesisView;
use crate::writing::{
    alias_infix, aliases_needed, command_line, command_store_aliases, id_label, join_tags, may_prefix, not_tag_infix,
    reference_labels, relation_line, tag_infix,
};

verus! {

/// One or more characters, none of them white space.
pub open spec fn is_token(x: Seq<char>) -> bool {
    x.len() > 0 && no_white_space(x)
}

proof fn lemma_token_run(s: Seq<char>, i: int, j: int)
    requires
        0 <= i <= j <= s.len(),
        forall|k: int| i <= k < j ==> !is_white_space(#[trigger] s[k]),
        j == s.len() || is_white_space(s[j]),
    ensures
        token_from(s, i) == j - i,
    decreases j - i,
{
    if i < j {
        lemma_token_run(s, i + 1, j);
    }
}

proof fn lemma_space_run(s: Seq<char>, i: int, j: int)
    requires
        0 <= i <= j <= s.len(),
        forall|k: int| i <= k < j ==> #[trigger] s[k] == ' ',
        j == s.len() || s[j] != ' ',
    ensures
        spaces_from(s, i) == j - i,
    decreases j - i,
{
    if i < j {
        lemma_space_run(s, i + 1, j);
    }
}

proof fn lemma_spaces_before_run(s: Seq<char>, i: int, j: int)
    requires
        0 <= i <= j <= s.len(),
        forall|k: int| i <= k < j ==> #[trigger] s[k] == ' ',
        i == 0 || s[i - 1] != ' ',
    ensures
        spaces_before(s, j) == j - i,
    decreases j - i,
{
    if i < j {
        lemma_spaces_before_run(s, i, j - 1);
    }
}

proof fn lemma_token_start_run(s: Seq<char>, i: int, j: int)
    requires
        0 <= i <= j <= s.len(),
        forall|k: int| i <= k < j ==> !is_white_space(#[trigger] s[k]),
        i == 0 || is_white_space(s[i - 1]),
    ensures
        token_start_before(s, j) == i,
    decreases j - i,
{
    if i < j {
        lemma_token_start_run(s, i, j - 1);
    }
}

/// Tokens in a list joined by single spaces.
pub open spec fn all_tokens(tags: Seq<Seq<char>>) -> bool {
    forall|i: int| 0 <= i < tags.len() ==> is_token(#[trigger] tags[i])
}

proof fn lemma_split_extend(x: Seq<char>, y: Seq<char>)
    requires
        forall|k: int| 0 <= k < y.len() ==> #[trigger] y[k] != ' ',
    ensures
        split_at_spaces(x + seq![' '] + y) == split_at_spaces(x).push(y),
    decreases y.len(),
{
    if y.len() == 0 {
        assert((x + seq![' '] + y).drop_last() =~= x);
        assert(x + seq![' '] + y =~= x + seq![' ']);
        assert(y =~= Seq::<char>::empty());
        assert((x + seq![' '] + y).last() == ' ');
    } else {
        lemma_split_extend(x, y.drop_last());
        assert((x + seq![' '] + y).drop_last() =~= x + seq![' '] + y.drop_last());
        assert((x + seq![' '] + y).last() == y.last());
        assert(y[y.len() - 1] != ' ');
        assert(y.drop_last().push(y.last()) =~= y);
        assert(split_at_spaces(x).push(y.drop_last()).update(split_at_spaces(x).len() as int, y.drop_last().push(y.last()))
            =~= split_at_spaces(x).push(y));
    }
}

proof fn lemma_split_single(y: Seq<char>)
    requires
        forall|k: int| 0 <= k < y.len() ==> #[trigger] y[k] != ' ',
    ensures
        split_at_spaces(y) == seq![y],
    decreases y.len(),
{
    if y.len() == 0 {
        assert(y =~= Seq::<char>::empty());
    } else {
        lemma_split_single(y.drop_last());
        assert(y.drop_last().push(y.last()) =~= y);
        assert(seq![y.drop_last()].update(0, y.drop_last().push(y.last())) =~= seq![y]);
    }
}

/// Splitting tags joined by single spaces gives the tags back.
pub proof fn lemma_split_join(tags: Seq<Seq<char>>)
    requires
        tags.len() >= 1,
        all_tokens(tags),
    ensures
        split_at_spaces(join_tags(tags)) == tags,
    decreases tags.len(),
{
    let y = tags.last();
    assert(is_token(tags[tags.len() - 1]));
    assert forall|k: int| 0 <= k < y.len() implies #[trigger] y[k] != ' ' by {
        assert(!is_white_space(y[k]));
    }
    if tags.len() == 1 {
        lemma_split_single(y);
        assert(seq![y] =~= tags);
    } else {
        assert forall|i: int| 0 <= i < tags.drop_last().len() implies is_token(#[trigger] tags.drop_last()[i]) by {
            assert(is_token(tags[i]));
        }
        lemma_split_join(tags.drop_last());
        lemma_split_extend(join_tags(tags.drop_last()), y);
        assert(tags.drop_last().push(y) =~= tags);
    }
}

/// Tokens joined by single spaces: not empty, starting and ending with a token character,
/// made of spaces and characters that are not white space.
proof fn lemma_join_shape(tags: Seq<Seq<char>>)
    requires
        tags.len() >= 1,
        all_tokens(tags),
    ensures
        join_tags(tags).len() > 0,
        !is_white_space(join_tags(tags)[0]),
        !is_white_space(join_tags(tags).last()),
        forall|k: int| 0 <= k < join_tags(tags).len() ==> (#[trigger] join_tags(tags)[k] == ' ' || !is_white_space(join_tags(tags)[k])),
    decreases tags.len(),
{
    let j = join_tags(tags);
    assert(is_token(tags[tags.len() - 1]));
    assert(is_token(tags[0]));
    if tags.len() > 1 {
        assert forall|i: int| 0 <= i < tags.drop_last().len() implies is_token(#[trigger] tags.drop_last()[i]) by {
            assert(is_token(tags[i]));
        }
        lemma_join_shape(tags.drop_last());
        let p = join_tags(tags.drop_last());
        let y = tags.last();
        assert(j == p + seq![' '] + y);
        assert(j[0] == p[0]);
        assert(j.last() == y.last());
        assert forall|k: int| 0 <= k < j.len() implies (#[trigger] j[k] == ' ' || !is_white_space(j[k])) by {
            if k < p.len() {
                assert(j[k] == p[k]);
            } else if k > p.len() {
                assert(j[k] == y[k - p.len() - 1]);
            }
        }
    } else {
        assert(j == tags[0]);
    }
}

proof fn lemma_tags_line(tags: Seq<char>, marker: Seq<char>, label: Seq<char>)
    requires
        tags.len() > 0,
        !is_white_space(tags[0]),
        !is_white_space(tags.last()),
        forall|k: int| 0 <= k < tags.len() ==> (#[trigger] tags[k] == ' ' || !is_white_space(tags[k])),
        marker.len() >= 1,
        marker.last() != ' ',
        is_token(label),
    ensures
        match_tags(may_prefix() + tags + seq![' '] + marker + seq![' '] + label, marker) == Some((tags, label)),
{
    let s = may_prefix() + tags + seq![' '] + marker + seq![' '] + label;
    let n = tags.len() as int;
    let w = marker.len() as int;
    let m = label.len() as int;
    assert(s.len() == 7 + n + w + m);
    assert forall|k: int| 0 <= k < n implies #[trigger] s[5 + k] == tags[k] by {}
    assert forall|k: int| 0 <= k < w implies #[trigger] s[6 + n + k] == marker[k] by {}
    assert forall|k: int| 0 <= k < m implies #[trigger] s[7 + n + w + k] == label[k] by {}
    assert(s[5 + n] == ' ');
    assert(s[6 + n + w] == ' ');
    assert(s.subrange(0, 4) =~= may_word());
    assert(s[5int + 0] == tags[0]);
    lemma_space_run(s, 4, 5);
    assert(body_start(s) == Some(5int));
    assert(!is_white_space(label[0]));
    assert forall|k: int| 7 + n + w <= k < s.len() implies !is_white_space(#[trigger] s[k]) by {
        assert(s[7 + n + w + (k - 7 - n - w)] == label[k - 7 - n - w]);
    }
    lemma_token_start_run(s, 7 + n + w, s.len() as int);
    assert(s[6 + n + (w - 1)] == marker[w - 1]);
    lemma_spaces_before_run(s, 6 + n + w, 7 + n + w);
    assert(s.subrange(6 + n, 6 + n + w) =~= marker);
    assert(s[5 + (n - 1)] == tags[n - 1]);
    lemma_spaces_before_run(s, 5 + n, 6 + n);
    assert forall|k: int| 5 <= k < 5 + n implies (#[trigger] s[k] == ' ' || !is_white_space(s[k])) by {
        assert(s[5 + (k - 5)] == tags[k - 5]);
    }
    assert(spaced_tokens(s, 5, 5 + n));
    assert(s.subrange(5, 5 + n) =~= tags);
    assert(s.subrange(7 + n + w, s.len() as int) =~= label);
}

/// The line written for adding tags is read as adding those tags to that label.
pub proof fn lemma_add_tags_line(tags: Seq<Seq<char>>, label: Seq<char>)
    requires
        tags.len() >= 1,
        all_tokens(tags),
        is_token(label),
    ensures
        match_add_tags(may_prefix() + join_tags(tags) + tag_infix() + label) == Some((join_tags(tags), label)),
        split_at_spaces(join_tags(tags)) == tags,
{
    lemma_join_shape(tags);
    lemma_split_join(tags);
    let j = join_tags(tags);
    assert(may_prefix() + j + tag_infix() + label =~= may_prefix() + j + seq![' '] + tag_word() + seq![' '] + label);
    lemma_tags_line(j, tag_word(), label);
}

/// The line written for removing tags is read as removing those tags from that label.
pub proof fn lemma_remove_tags_line(tags: Seq<Seq<char>>, label: Seq<char>)
    requires
        tags.len() >= 1,
        all_tokens(tags),
        is_token(label),
    ensures
        match_remove_tags(may_prefix() + join_tags(tags) + not_tag_infix() + label) == Some((join_tags(tags), label)),
        split_at_spaces(join_tags(tags)) == tags,
{
    lemma_join_shape(tags);
    lemma_split_join(tags);
    let j = join_tags(tags);
    assert(may_prefix() + j + not_tag_infix() + label =~= may_prefix() + j + seq![' '] + not_tag_words() + seq![' '] + label);
    lemma_tags_line(j, not_tag_words(), label);
}

/// The line written for setting an alias is read as setting that alias for that label.
pub proof fn lemma_set_alias_line(alias: Seq<char>, label: Seq<char>)
    requires
        is_token(alias),
        is_token(label),
    ensures
        match_set_alias(may_prefix() + alias + alias_infix() + label) == Some((alias, label)),
{
    let s = may_prefix() + alias + alias_infix() + label;
    let n = alias.len() as int;
    let m = label.len() as int;
    assert(s.len() == 12 + n + m);
    assert forall|k: int| 0 <= k < n implies #[trigger] s[5 + k] == alias[k] by {}
    assert forall|k: int| 0 <= k < 7 implies #[trigger] s[5 + n + k] == alias_infix()[k] by {}
    assert forall|k: int| 0 <= k < m implies #[trigger] s[12 + n + k] == label[k] by {}
    assert(s.subrange(0, 4) =~= may_word());
    assert(s[4] == ' ');
    assert(!is_white_space(alias[0]));
    lemma_space_run(s, 4, 5);
    assert(body_start(s) == Some(5int));
    assert forall|k: int| 5 <= k < 5 + n implies !is_white_space(#[trigger] s[k]) by {
        assert(s[5 + (k - 5)] == alias[k - 5]);
    }
    lemma_token_run(s, 5, 5 + n);
    lemma_space_run(s, 5 + n, 6 + n);
    assert(s.subrange(6 + n, 11 + n) =~= alias_word()) by {
        assert forall|k: int| 0 <= k < 5 implies #[trigger] s.subrange(6 + n, 11 + n)[k] == alias_word()[k] by {
            assert(s[5 + n + (k + 1)] == alias_infix()[k + 1]);
        }
    }
    assert(!is_white_space(label[0]));
    lemma_space_run(s, 11 + n, 12 + n);
    assert forall|k: int| 12 + n <= k < 12 + n + m implies !is_white_space(#[trigger] s[k]) by {
        assert(s[12 + n + (k - 12 - n)] == label[k - 12 - n]);
    }
    lemma_token_run(s, 12 + n, 12 + n + m);
    assert(s.subrange(5, 5 + n) =~= alias);
    assert(s.subrange(12 + n, s.len() as int) =~= label);
}

/// Free text that a line can end with: not empty, not starting with a space, no line feed.
pub open spec fn is_line_text(x: Seq<char>) -> bool {
    x.len() > 0 && x[0] != ' ' && forall|k: int| 0 <= k < x.len() ==> #[trigger] x[k] != '\n'
}

proof fn lemma_middle_and_last(s: Seq<char>, g: int, kind: Seq<char>, to: Seq<char>)
    requires
        0 <= g,
        g + 2 + kind.len() + to.len() == s.len(),
        s[g] == ' ',
        s[g + 1 + kind.len()] == ' ',
        forall|k: int| 0 <= k < kind.len() ==> #[trigger] s[g + 1 + k] == kind[k],
        forall|k: int| 0 <= k < to.len() ==> #[trigger] s[g + 2 + kind.len() + k] == to[k],
        is_line_text(kind),
        is_token(to),
    ensures
        match_middle_and_last(s, g) == Some((kind, to)),
{
    let w = kind.len() as int;
    let ys = g + 2 + w;
    assert(s[g + 1 + 0] == kind[0]);
    lemma_space_run(s, g, g + 1);
    assert forall|k: int| ys <= k < s.len() implies !is_white_space(#[trigger] s[k]) by {
        assert(s[g + 2 + w + (k - ys)] == to[k - ys]);
    }
    lemma_token_start_run(s, ys, s.len() as int);
    assert forall|k: int| g + 1 <= k < ys - 1 implies #[trigger] s[k] != '\n' by {
        assert(s[g + 1 + (k - g - 1)] == kind[k - g - 1]);
    }
    assert(no_line_feed(s, g + 1, ys - 1));
    assert forall|k: int| 0 <= k < w implies #[trigger] s.subrange(g + 1, ys - 1)[k] == kind[k] by {
        assert(s[g + 1 + k] == kind[k]);
    }
    assert(s.subrange(g + 1, ys - 1) =~= kind);
    assert forall|k: int| 0 <= k < to.len() implies #[trigger] s.subrange(ys, s.len() as int)[k] == to[k] by {
        assert(s[g + 2 + w + k] == to[k]);
    }
    assert(s.subrange(ys, s.len() as int) =~= to);
}

/// The line written for adding a relation is read as that relation: `from kind to`.
#[verifier::spinoff_prover]
#[verifier::rlimit(40)]
pub proof fn lemma_relation_line(from: Seq<char>, kind: Seq<char>, to: Seq<char>)
    requires
        is_token(from),
        is_line_text(kind),
        is_token(to),
    ensures
        match_relation(may_prefix() + relation_line(from, kind, to)) == Some((from, kind, to)),
{
    let s = may_prefix() + relation_line(from, kind, to);
    let n = from.len() as int;
    let w = kind.len() as int;
    let m = to.len() as int;
    assert(s.len() == 7 + n + w + m);
    assert forall|k: int| 0 <= k < n implies #[trigger] s[5 + k] == from[k] by {}
    assert forall|k: int| 0 <= k < w implies #[trigger] s[5 + n + 1 + k] == kind[k] by {}
    assert forall|k: int| 0 <= k < m implies #[trigger] s[5 + n + 2 + w + k] == to[k] by {}
    assert(s[5 + n] == ' ');
    assert(s[5 + n + 1 + w] == ' ');
    assert(s.subrange(0, 4) =~= may_word());
    assert(s[5int + 0] == from[0]);
    lemma_space_run(s, 4, 5);
    assert(body_start(s) == Some(5int));
    assert forall|k: int| 5 <= k < 5 + n implies !is_white_space(#[trigger] s[k]) by {
        assert(s[5 + (k - 5)] == from[k - 5]);
    }
    lemma_token_run(s, 5, 5 + n);
    lemma_middle_and_last(s, 5 + n, kind, to);
    assert(s.subrange(5, 5 + n) =~= from);
}

/// The line written for adding a relation under an alias is read as that alias and relation.
#[verifier::spinoff_prover]
#[verifier::rlimit(40)]
pub proof fn lemma_relation_with_alias_line(alias: Seq<char>, from: Seq<char>, kind: Seq<char>, to: Seq<char>)
    requires
        is_token(alias),
        is_token(from),
        is_line_text(kind),
        is_token(to),
    ensures
        match_relation_with_alias(may_prefix() + alias + alias_infix() + relation_line(from, kind, to))
            == Some((alias, from, kind, to)),
{
    let s = may_prefix() + alias + alias_infix() + relation_line(from, kind, to);
    let a = alias.len() as int;
    let n = from.len() as int;
    let w = kind.len() as int;
    let m = to.len() as int;
    let f = 12 + a;
    assert(s.len() == 14 + a + n + w + m);
    assert forall|k: int| 0 <= k < a implies #[trigger] s[5 + k] == alias[k] by {}
    assert forall|k: int| 0 <= k < 7 implies #[trigger] s[5 + a + k] == alias_infix()[k] by {}
    assert forall|k: int| 0 <= k < n implies #[trigger] s[f + k] == from[k] by {}
    assert forall|k: int| 0 <= k < w implies #[trigger] s[f + n + 1 + k] == kind[k] by {}
    assert forall|k: int| 0 <= k < m implies #[trigger] s[f + n + 2 + w + k] == to[k] by {}
    assert(s[f + n] == ' ');
    assert(s[f + n + 1 + w] == ' ');
    assert(s.subrange(0, 4) =~= may_word());
    assert(s[5int + 0] == alias[0]);
    lemma_space_run(s, 4, 5);
    assert(body_start(s) == Some(5int));
    assert forall|k: int| 5 <= k < 5 + a implies !is_white_space(#[trigger] s[k]) by {
        assert(s[5 + (k - 5)] == alias[k - 5]);
    }
    lemma_token_run(s, 5, 5 + a);
    assert(s.subrange(5 + a, 11 + a) =~= space_alias_word()) by {
        assert forall|k: int| 0 <= k < 6 implies #[trigger] s.subrange(5 + a, 11 + a)[k] == space_alias_word()[k] by {
            assert(s[5 + a + k] == alias_infix()[k]);
        }
    }
    assert(s[5 + a + 6] == ' ');
    assert(s[f + 0] == from[0]);
    lemma_space_run(s, 11 + a, f);
    assert forall|k: int| f <= k < f + n implies !is_white_space(#[trigger] s[k]) by {
        assert(s[f + (k - f)] == from[k - f]);
    }
    lemma_token_run(s, f, f + n);
    lemma_middle_and_last(s, f + n, kind, to);
    assert(s.subrange(5, 5 + a) =~= alias);
    assert(s.subrange(f, f + n) =~= from);
}

proof fn lemma_rest(s: Seq<char>, d: int, text: Seq<char>)
    requires
        0 <= d,
        d + 1 + text.len() == s.len(),
        s[d] == ' ',
        forall|k: int| 0 <= k < text.len() ==> #[trigger] s[d + 1 + k] == text[k],
        is_line_text(text),
    ensures
        match_rest(s, d) == Some(text),
{
    assert(s[d + 1 + 0] == text[0]);
    lemma_space_run(s, d, d + 1);
    assert forall|k: int| d + 1 <= k < s.len() implies #[trigger] s[k] != '\n' by {
        assert(s[d + 1 + (k - d - 1)] == text[k - d - 1]);
    }
    assert forall|k: int| 0 <= k < text.len() implies #[trigger] s.subrange(d + 1, s.len() as int)[k] == text[k] by {
        assert(s[d + 1 + k] == text[k]);
    }
    assert(s.subrange(d + 1, s.len() as int) =~= text);
}

/// The line written for adding a text is read as that text.
pub proof fn lemma_text_line(text: Seq<char>)
    requires
        is_line_text(text),
    ensures
        match_text(may_prefix() + text) == Some(text),
{
    let s = may_prefix() + text;
    assert forall|k: int| 0 <= k < text.len() implies #[trigger] s[4 + 1 + k] == text[k] by {}
    assert(s.subrange(0, 4) =~= may_word());
    lemma_rest(s, 4, text);
}

/// The line written for adding a text under an alias is read as that alias and text.
pub proof fn lemma_text_with_alias_line(alias: Seq<char>, text: Seq<char>)
    requires
        is_token(alias),
        is_line_text(text),
    ensures
        match_text_with_alias(may_prefix() + alias + alias_infix() + text) == Some((alias, text)),
{
    let s = may_prefix() + alias + alias_infix() + text;
    let a = alias.len() as int;
    assert(s.len() == 12 + a + text.len());
    assert forall|k: int| 0 <= k < a implies #[trigger] s[5 + k] == alias[k] by {}
    assert forall|k: int| 0 <= k < 7 implies #[trigger] s[5 + a + k] == alias_infix()[k] by {}
    assert forall|k: int| 0 <= k < text.len() implies #[trigger] s[(11 + a) + 1 + k] == text[k] by {}
    assert(s.subrange(0, 4) =~= may_word());
    assert(s[5int + 0] == alias[0]);
    lemma_space_run(s, 4, 5);
    assert(body_start(s) == Some(5int));
    assert forall|k: int| 5 <= k < 5 + a implies !is_white_space(#[trigger] s[k]) by {
        assert(s[5 + (k - 5)] == alias[k - 5]);
    }
    lemma_token_run(s, 5, 5 + a);
    lemma_space_run(s, 5 + a, 6 + a);
    assert(s.subrange(6 + a, 11 + a) =~= alias_word()) by {
        assert forall|k: int| 0 <= k < 5 implies #[trigger] s.subrange(6 + a, 11 + a)[k] == alias_word()[k] by {
            assert(s[5 + a + (k + 1)] == alias_infix()[k + 1]);
        }
    }
    assert(s[5 + a + 6] == ' ');
    lemma_rest(s, 11 + a, text);
    assert(s.subrange(5, 5 + a) =~= alias);
}

/// A thesis is named by a token: its alias when that is a token, else its written identifier.
pub open spec fn label_ok(id: Seq<u8>, alias: Option<Seq<char>>) -> bool {
    match alias {
        Some(a) => is_token(a),
        None => id.len() > 0,
    }
}

proof fn lemma_label_token(id: Seq<u8>, alias: Option<Seq<char>>)
    requires
        label_ok(id, alias),
    ensures
        is_token(id_label(id, alias)),
{
    if alias is None {
        lemma_encode_len(id);
        lemma_encode_in_alphabet(id);
        let t = id_text(id);
        assert forall|k: int| 0 <= k < t.len() implies !is_white_space(#[trigger] t[k]) by {
            assert(b64_value(t[k]) is Some);
        }
    }
}

/// The parts of a command can be written on one line and read back: aliases and labels are
/// tokens, there is at least one tag and each is a token, relation kinds and texts are line
/// texts.
pub open spec fn writable(c: CommandView, aliases: Seq<Option<Seq<char>>>) -> bool {
    &&& aliases.len() >= aliases_needed(c)
    &&& match c {
        CommandView::AddTextThesisWithAlias { text, alias } => is_token(alias) && is_line_text(
            labelled_text(text, reference_labels(text, aliases)),
        ),
        CommandView::AddTextThesisWithoutAlias(text) => is_line_text(
            labelled_text(text, reference_labels(text, aliases)),
        ),
        CommandView::AddRelationThesisWithAlias { relation, alias } => is_token(alias) && label_ok(
            relation.from,
            aliases[0],
        ) && label_ok(relation.to, aliases[1]) && is_line_text(relation.kind),
        CommandView::AddRelationThesisWithoutAlias(relation) => label_ok(relation.from, aliases[0])
            && label_ok(relation.to, aliases[1]) && is_line_text(relation.kind),
        CommandView::SetAlias { thesis_id, alias } => is_token(alias) && label_ok(thesis_id, aliases[0]),
        CommandView::AddTags { thesis_id, tags } => tags.len() >= 1 && all_tokens(tags) && label_ok(
            thesis_id,
            aliases[0],
        ),
        CommandView::RemoveTags { thesis_id, tags } => tags.len() >= 1 && all_tokens(tags) && label_ok(
            thesis_id,
            aliases[0],
        ),
    }
}

/// The form of the command reads, from the line written for it, the command's own parts:
/// its alias, its tags, its relation kind, and the labels and text it was written with.
pub open spec fn reads_back(c: CommandView, aliases: Seq<Option<Seq<char>>>) -> bool {
    let line = command_line(c, aliases);
    match c {
        CommandView::SetAlias { thesis_id, alias } => match_set_alias(line) == Some(
            (alias, id_label(thesis_id, aliases[0])),
        ),
        CommandView::AddTags { thesis_id, tags } => match_add_tags(line) matches Some((g, l))
            && split_at_spaces(g) == tags && l == id_label(thesis_id, aliases[0]),
        CommandView::RemoveTags { thesis_id, tags } => match_remove_tags(line) matches Some((g, l))
            && split_at_spaces(g) == tags && l == id_label(thesis_id, aliases[0]),
        CommandView::AddRelationThesisWithAlias { relation, alias } => match_relation_with_alias(
            line,
        ) == Some(
            (alias, id_label(relation.from, aliases[0]), relation.kind, id_label(relation.to, aliases[1])),
        ),
        CommandView::AddRelationThesisWithoutAlias(relation) => match_relation(line) == Some(
            (id_label(relation.from, aliases[0]), relation.kind, id_label(relation.to, aliases[1])),
        ),
        CommandView::AddTextThesisWithAlias { text, alias } => match_text_with_alias(line) == Some(
            (alias, labelled_text(text, reference_labels(text, aliases))),
        ),
        CommandView::AddTextThesisWithoutAlias(text) => match_text(line) == Some(
            labelled_text(text, reference_labels(text, aliases)),
        ),
    }
}

/// The line written for a command is read, by that command's form, into the command's parts.
pub proof fn lemma_written_command_reads_back(c: CommandView, aliases: Seq<Option<Seq<char>>>)
    requires
        writable(c, aliases),
    ensures
        reads_back(c, aliases),
{
    match c {
        CommandView::SetAlias { thesis_id, alias } => {
            lemma_label_token(thesis_id, aliases[0]);
            lemma_set_alias_line(alias, id_label(thesis_id, aliases[0]));
        },
        CommandView::AddTags { thesis_id, tags } => {
            lemma_label_token(thesis_id, aliases[0]);
            lemma_add_tags_line(tags, id_label(thesis_id, aliases[0]));
        },
        CommandView::RemoveTags { thesis_id, tags } => {
            lemma_label_token(thesis_id, aliases[0]);
            lemma_remove_tags_line(tags, id_label(thesis_id, aliases[0]));
        },
        CommandView::AddRelationThesisWithAlias { relation, alias } => {
            lemma_label_token(relation.from, aliases[0]);
            lemma_label_token(relation.to, aliases[1]);
            lemma_relation_with_alias_line(
                alias,
                id_label(relation.from, aliases[0]),
                relation.kind,
                id_label(relation.to, aliases[1]),
            );
        },
        CommandView::AddRelationThesisWithoutAlias(relation) => {
            lemma_label_token(relation.from, aliases[0]);
            lemma_label_token(relation.to, aliases[1]);
            lemma_relation_line(id_label(relation.from, aliases[0]), relation.kind, id_label(relation.to, aliases[1]));
        },
        CommandView::AddTextThesisWithAlias { text, alias } => {
            lemma_text_with_alias_line(alias, labelled_text(text, reference_labels(text, aliases)));
        },
        CommandView::AddTextThesisWithoutAlias(text) => {
            lemma_text_line(labelled_text(text, reference_labels(text, aliases)));
        },
    }
}


/// No thesis is named by an alias: each is written as its identifier.
pub open spec fn no_aliases(n: nat) -> Seq<Option<Seq<char>>> {
    Seq::new(n, |i: int| None::<Seq<char>>)
}

/// Every identifier the command holds is sixteen bytes, as a `DocumentId` is.
pub open spec fn command_ids_sized(c: CommandView) -> bool {
    match c {
        CommandView::AddTextThesisWithAlias { text, .. } => text_ids_sized(text),
        CommandView::AddTextThesisWithoutAlias(text) => text_ids_sized(text),
        CommandView::AddRelationThesisWithAlias { relation, .. } => relation.from.len() == 16
            && relation.to.len() == 16,
        CommandView::AddRelationThesisWithoutAlias(relation) => relation.from.len() == 16
            && relation.to.len() == 16,
        CommandView::SetAlias { thesis_id, .. } => thesis_id.len() == 16,
        CommandView::AddTags { thesis_id, .. } => thesis_id.len() == 16,
        CommandView::RemoveTags { thesis_id, .. } => thesis_id.len() == 16,
    }
}

/// A text command's text is as reading gives it (see `text_as_read`).
pub open spec fn texts_as_read(c: CommandView) -> bool {
    match c {
        CommandView::AddTextThesisWithAlias { text, .. } => text_as_read(text),
        CommandView::AddTextThesisWithoutAlias(text) => text_as_read(text),
        _ => true,
    }
}

/// The two commands are of the same form.
pub open spec fn same_form(c: CommandView, d: CommandView) -> bool {
    match c {
        CommandView::AddTextThesisWithAlias { .. } => d is AddTextThesisWithAlias,
        CommandView::AddTextThesisWithoutAlias(_) => d is AddTextThesisWithoutAlias,
        CommandView::AddRelationThesisWithAlias { .. } => d is AddRelationThesisWithAlias,
        CommandView::AddRelationThesisWithoutAlias(_) => d is AddRelationThesisWithoutAlias,
        CommandView::SetAlias { .. } => d is SetAlias,
        CommandView::AddTags { .. } => d is AddTags,
        CommandView::RemoveTags { .. } => d is RemoveTags,
    }
}

/// A text whose references are all named by identifiers is written as its raw text.
proof fn lemma_identified_text_written_raw(text: Seq<EntityView>, none: Seq<Option<Seq<char>>>)
    requires
        none.len() >= text.len(),
        forall|i: int| 0 <= i < none.len() ==> #[trigger] none[i] is None,
    ensures
        labelled_text(text, reference_labels(text, none)) == raw_text(text),
{
    let labels = reference_labels(text, none);
    assert forall|i: int| 0 <= i < text.len() implies (#[trigger] text[i] matches EntityView::Reference(
        id,
    ) ==> labels[i] == crate::document_id::id_text(id)) by {
        assert(none[i] is None);
    }
    lemma_labelled_raw(text, labels);
}

proof fn lemma_set_alias_read_back<'a, T: ReadTransactionMethods>(
    thesis_id: Seq<u8>,
    alias: Seq<char>,
    d: CommandView,
    kinds: Seq<RelationKind>,
    res: LocalAliasesResolver<'a, T>,
)
    requires
        thesis_id.len() == 16,
        is_token(alias),
        d is SetAlias,
        read_as(d, may_prefix() + alias + alias_infix() + id_text(thesis_id), kinds),
        resolved_by(d, may_prefix() + alias + alias_infix() + id_text(thesis_id), res),
    ensures
        d == (CommandView::SetAlias { thesis_id, alias }),
{
    lemma_label_token(thesis_id, None);
    lemma_set_alias_line(alias, id_text(thesis_id));
    lemma_reference_of_id_text(thesis_id);
}

proof fn lemma_add_tags_read_back<'a, T: ReadTransactionMethods>(
    thesis_id: Seq<u8>,
    tags: Seq<Seq<char>>,
    d: CommandView,
    kinds: Seq<RelationKind>,
    res: LocalAliasesResolver<'a, T>,
)
    requires
        thesis_id.len() == 16,
        tags.len() >= 1,
        all_tokens(tags),
        d is AddTags,
        read_as(d, may_prefix() + join_tags(tags) + tag_infix() + id_text(thesis_id), kinds),
        resolved_by(d, may_prefix() + join_tags(tags) + tag_infix() + id_text(thesis_id), res),
    ensures
        d == (CommandView::AddTags { thesis_id, tags }),
{
    lemma_label_token(thesis_id, None);
    lemma_add_tags_line(tags, id_text(thesis_id));
    lemma_reference_of_id_text(thesis_id);
}

proof fn lemma_remove_tags_read_back<'a, T: ReadTransactionMethods>(
    thesis_id: Seq<u8>,
    tags: Seq<Seq<char>>,
    d: CommandView,
    kinds: Seq<RelationKind>,
    res: LocalAliasesResolver<'a, T>,
)
    requires
        thesis_id.len() == 16,
        tags.len() >= 1,
        all_tokens(tags),
        d is RemoveTags,
        read_as(d, may_prefix() + join_tags(tags) + not_tag_infix() + id_text(thesis_id), kinds),
        resolved_by(d, may_prefix() + join_tags(tags) + not_tag_infix() + id_text(thesis_id), res),
    ensures
        d == (CommandView::RemoveTags { thesis_id, tags }),
{
    lemma_label_token(thesis_id, None);
    lemma_remove_tags_line(tags, id_text(thesis_id));
    lemma_reference_of_id_text(thesis_id);
}

proof fn lemma_relation_read_back<'a, T: ReadTransactionMethods>(
    relation: RelationView,
    d: CommandView,
    kinds: Seq<RelationKind>,
    res: LocalAliasesResolver<'a, T>,
)
    requires
        relation.from.len() == 16,
        relation.to.len() == 16,
        is_line_text(relation.kind),
        d is AddRelationThesisWithoutAlias,
        read_as(d, may_prefix() + relation_line(id_text(relation.from), relation.kind, id_text(relation.to)), kinds),
        resolved_by(d, may_prefix() + relation_line(id_text(relation.from), relation.kind, id_text(relation.to)), res),
    ensures
        d == CommandView::AddRelationThesisWithoutAlias(relation),
{
    lemma_label_token(relation.from, None);
    lemma_label_token(relation.to, None);
    lemma_relation_line(id_text(relation.from), relation.kind, id_text(relation.to));
    lemma_reference_of_id_text(relation.from);
    lemma_reference_of_id_text(relation.to);
}

proof fn lemma_relation_with_alias_read_back<'a, T: ReadTransactionMethods>(
    relation: RelationView,
    alias: Seq<char>,
    d: CommandView,
    kinds: Seq<RelationKind>,
    res: LocalAliasesResolver<'a, T>,
)
    requires
        relation.from.len() == 16,
        relation.to.len() == 16,
        is_line_text(relation.kind),
        is_token(alias),
        d is AddRelationThesisWithAlias,
        read_as(
            d,
            may_prefix() + alias + alias_infix() + relation_line(id_text(relation.from), relation.kind, id_text(relation.to)),
            kinds,
        ),
        resolved_by(
            d,
            may_prefix() + alias + alias_infix() + relation_line(id_text(relation.from), relation.kind, id_text(relation.to)),
            res,
        ),
    ensures
        d == (CommandView::AddRelationThesisWithAlias { relation, alias }),
{
    lemma_label_token(relation.from, None);
    lemma_label_token(relation.to, None);
    lemma_relation_with_alias_line(alias, id_text(relation.from), relation.kind, id_text(relation.to));
    lemma_reference_of_id_text(relation.from);
    lemma_reference_of_id_text(relation.to);
}

proof fn lemma_text_read_back<'a, T: ReadTransactionMethods>(
    text: Seq<EntityView>,
    d: CommandView,
    kinds: Seq<RelationKind>,
    res: LocalAliasesResolver<'a, T>,
)
    requires
        text_ids_sized(text),
        text_as_read(text),
        is_line_text(raw_text(text)),
        d is AddTextThesisWithoutAlias,
        read_as(d, may_prefix() + raw_text(text), kinds),
        resolved_by(d, may_prefix() + raw_text(text), res),
    ensures
        d == CommandView::AddTextThesisWithoutAlias(text),
{
    lemma_text_line(raw_text(text));
    lemma_own_pieces_read(text, d->AddTextThesisWithoutAlias_0, res.known_aliases@, res.read_able_transaction.stored());
}

proof fn lemma_text_with_alias_read_back<'a, T: ReadTransactionMethods>(
    text: Seq<EntityView>,
    alias: Seq<char>,
    d: CommandView,
    kinds: Seq<RelationKind>,
    res: LocalAliasesResolver<'a, T>,
)
    requires
        text_ids_sized(text),
        text_as_read(text),
        is_line_text(raw_text(text)),
        is_token(alias),
        d is AddTextThesisWithAlias,
        read_as(d, may_prefix() + alias + alias_infix() + raw_text(text), kinds),
        resolved_by(d, may_prefix() + alias + alias_infix() + raw_text(text), res),
    ensures
        d == (CommandView::AddTextThesisWithAlias { text, alias }),
{
    lemma_text_with_alias_line(alias, raw_text(text));
    lemma_own_pieces_read(text, d->AddTextThesisWithAlias_text, res.known_aliases@, res.read_able_transaction.stored());
}

/// A command whose theses are all named by their identifiers, written as a line and read
/// back in its own form through a local resolver, is the command itself.
pub proof fn lemma_identified_command_read_back<'a, T: ReadTransactionMethods>(
    c: CommandView,
    d: CommandView,
    kinds: Seq<RelationKind>,
    res: LocalAliasesResolver<'a, T>,
)
    requires
        command_ids_sized(c),
        writable(c, no_aliases(aliases_needed(c))),
        texts_as_read(c),
        same_form(c, d),
        read_as(d, command_line(c, no_aliases(aliases_needed(c))), kinds),
        resolved_by(d, command_line(c, no_aliases(aliases_needed(c))), res),
    ensures
        d == c,
{
    let none = no_aliases(aliases_needed(c));
    match c {
        CommandView::SetAlias { thesis_id, alias } => {
            assert(none[0] is None);
            lemma_set_alias_read_back(thesis_id, alias, d, kinds, res);
        },
        CommandView::AddTags { thesis_id, tags } => {
            assert(none[0] is None);
            lemma_add_tags_read_back(thesis_id, tags, d, kinds, res);
        },
        CommandView::RemoveTags { thesis_id, tags } => {
            assert(none[0] is None);
            lemma_remove_tags_read_back(thesis_id, tags, d, kinds, res);
        },
        CommandView::AddRelationThesisWithAlias { relation, alias } => {
            assert(none[0] is None && none[1] is None);
            lemma_relation_with_alias_read_back(relation, alias, d, kinds, res);
        },
        CommandView::AddRelationThesisWithoutAlias(relation) => {
            assert(none[0] is None && none[1] is None);
            lemma_relation_read_back(relation, d, kinds, res);
        },
        CommandView::AddTextThesisWithAlias { text, alias } => {
            lemma_identified_text_written_raw(text, none);
            lemma_text_with_alias_read_back(text, alias, d, kinds, res);
        },
        CommandView::AddTextThesisWithoutAlias(text) => {
            lemma_identified_text_written_raw(text, none);
            lemma_text_read_back(text, d, kinds, res);
        },
    }
}


/// A set-alias command whose thesis is named by an alias that a local resolver remembers for
/// it (one that is not the written form of an identifier) is written as a line that the
/// set-alias form is ready for; and a set-alias command read from that line through that
/// resolver is the command itself. Since `parse` tries that form first, it reads the line
/// back as the command.
pub proof fn lemma_remembered_set_alias_read_back<'a, T: ReadTransactionMethods>(
    thesis_id: Seq<u8>,
    alias: Seq<char>,
    label: Seq<char>,
    d: CommandView,
    kinds: Seq<RelationKind>,
    res: LocalAliasesResolver<'a, T>,
)
    requires
        is_token(alias),
        is_token(label),
        crate::document_id::id_from_text(label) is None,
        known_lookup(res.known_aliases@, label) == Some(thesis_id),
    ensures
        set_alias_ready(
            command_line(CommandView::SetAlias { thesis_id, alias }, seq![Some(label)]),
            res,
        ),
        d is SetAlias && read_as(d, command_line(CommandView::SetAlias { thesis_id, alias }, seq![Some(label)]), kinds)
            && resolved_by(d, command_line(CommandView::SetAlias { thesis_id, alias }, seq![Some(label)]), res)
            ==> d == (CommandView::SetAlias { thesis_id, alias }),
{
    let line = command_line(CommandView::SetAlias { thesis_id, alias }, seq![Some(label)]);
    assert(line == may_prefix() + alias + alias_infix() + label);
    lemma_set_alias_line(alias, label);
    assert(crate::reference::reference_of(label) == crate::reference::ReferenceView::Alias(label));
}


/// The line `/may t tag a` is not read by the set-alias form: its second word is `tag`.
proof fn lemma_one_tag_line_not_set_alias(t: Seq<char>, a: Seq<char>)
    requires
        is_token(t),
        is_token(a),
    ensures
        match_set_alias(may_prefix() + t + tag_infix() + a) is None,
{
    let s = may_prefix() + t + tag_infix() + a;
    let n = t.len() as int;
    assert(s.len() == 10 + n + a.len());
    assert forall|k: int| 0 <= k < n implies #[trigger] s[5 + k] == t[k] by {}
    assert(s[5 + n] == ' ');
    assert(s[6 + n] == 't');
    assert(s[5int + 0] == t[0]);
    assert(s.subrange(0, 4) =~= may_word());
    lemma_space_run(s, 4, 5);
    assert forall|k: int| 5 <= k < 5 + n implies !is_white_space(#[trigger] s[k]) by {
        assert(s[5 + (k - 5)] == t[k - 5]);
    }
    lemma_token_run(s, 5, 5 + n);
    lemma_space_run(s, 5 + n, 6 + n);
    if has_word_at(s, 6 + n, alias_word()) {
        assert(s.subrange(6 + n, 11 + n)[0] == s[6 + n]);
    }
}

/// The line `/may t tag a` is not read by the remove-tags form: before `tag` stands one
/// word, not `not` after another.
proof fn lemma_one_tag_line_not_remove_tags(t: Seq<char>, a: Seq<char>)
    requires
        is_token(t),
        is_token(a),
    ensures
        match_remove_tags(may_prefix() + t + tag_infix() + a) is None,
{
    let s = may_prefix() + t + tag_infix() + a;
    let n = t.len() as int;
    let m0 = a.len() as int;
    assert(s.len() == 10 + n + m0);
    assert forall|k: int| 0 <= k < n implies #[trigger] s[5 + k] == t[k] by {}
    assert forall|k: int| 0 <= k < m0 implies #[trigger] s[10 + n + k] == a[k] by {}
    assert(s[5 + n] == ' ' && s[6 + n] == 't' && s[7 + n] == 'a' && s[8 + n] == 'g' && s[9 + n] == ' ');
    assert(s[5int + 0] == t[0]);
    assert(s.subrange(0, 4) =~= may_word());
    lemma_space_run(s, 4, 5);
    assert forall|k: int| 10 + n <= k < s.len() implies !is_white_space(#[trigger] s[k]) by {
        assert(s[10 + n + (k - 10 - n)] == a[k - 10 - n]);
    }
    lemma_token_start_run(s, 10 + n, s.len() as int);
    lemma_spaces_before_run(s, 9 + n, 10 + n);
    let m = 2 + n;
    if has_word_at(s, m, not_tag_words()) {
        assert(s.subrange(m, m + 7)[0] == s[m]);
        assert(s[m] == 'n');
        if n >= 4 {
            assert(s[m - 1] == t[n - 4]);
            assert(!is_white_space(t[n - 4]));
            assert(spaces_before(s, m) == 0);
        } else if n == 3 {
            assert(s[4] == ' ' && s[3] == 'y');
            assert(spaces_before(s, 4) == 0);
            assert(spaces_before(s, 5) == 1);
        } else if n == 2 {
            assert(s[4] == ' ');
        } else {
            assert(s[3] == 'y');
        }
    }
}

/// An alias that an earlier line gave (remembered by the local resolver, and not the
/// written form of an identifier) is resolved by a later line `/may t tag a` naming it: the
/// set-alias and remove-tags forms are refused by that line, the add-tags form is ready for
/// it, and an add-tags command read from it is the one that tags the remembered thesis with
/// `t`. Since `parse` tries the forms in that order, it reads the later line so.
pub proof fn lemma_remembered_alias_tags_later_line<'a, T: ReadTransactionMethods>(
    t: Seq<char>,
    alias: Seq<char>,
    thesis_id: Seq<u8>,
    d: CommandView,
    kinds: Seq<RelationKind>,
    res: LocalAliasesResolver<'a, T>,
)
    requires
        is_token(t),
        crate::tag::tag_valid(t),
        is_token(alias),
        crate::document_id::id_from_text(alias) is None,
        res.remembers(alias, thesis_id),
    ensures
        first_forms_refused(2, may_prefix() + t + tag_infix() + alias, kinds, res),
        tags_ready(match_add_tags(may_prefix() + t + tag_infix() + alias), res),
        d is AddTags && read_as(d, may_prefix() + t + tag_infix() + alias, kinds) && resolved_by(
            d,
            may_prefix() + t + tag_infix() + alias,
            res,
        ) ==> d == (CommandView::AddTags { thesis_id, tags: seq![t] }),
{
    lemma_one_tag_line_not_set_alias(t, alias);
    lemma_one_tag_line_not_remove_tags(t, alias);
    assert(join_tags(seq![t]) == t);
    assert(all_tokens(seq![t]));
    lemma_add_tags_line(seq![t], alias);
    assert(crate::reference::reference_of(alias) == crate::reference::ReferenceView::Alias(alias));
    assert(crate::command::tags_valid(seq![t]));
}


/// Through `res`, the label `l` can only name the thesis `id`.
pub open spec fn label_names<R: AliasesResolver>(res: R, l: Seq<char>, id: Seq<u8>) -> bool {
    forall|x: Seq<u8>| #[trigger] res.stands_for(reference_of(l), x) ==> x == id
}

/// No two stored theses carry the same alias.
#[verifier::opaque]
pub open spec fn store_aliases_distinct(stored: Map<Seq<u8>, ThesisView>) -> bool {
    forall|k1: Seq<u8>, k2: Seq<u8>|
        #[trigger] stored.contains_key(k1) && #[trigger] stored.contains_key(k2) && stored[k1].alias is Some
            && stored[k1].alias == stored[k2].alias ==> k1 == k2
}

/// Every stored alias is valid and is not the written form of an identifier.
#[verifier::opaque]
pub open spec fn store_aliases_plain(stored: Map<Seq<u8>, ThesisView>) -> bool {
    forall|k: Seq<u8>|
        #[trigger] stored.contains_key(k) ==> (stored[k].alias matches Some(a) ==> is_token(a)
            && crate::document_id::id_from_text(a) is None)
}

/// A thesis labelled as a store writes it (by its alias there, else by its identifier) is
/// named by that label through a local resolver that remembers nothing, when the store's
/// aliases are distinct and plain.
proof fn lemma_store_label_names<'a, T: ReadTransactionMethods>(res: LocalAliasesResolver<'a, T>, id: Seq<u8>)
    requires
        id.len() == 16,
        res.known_aliases@.len() == 0,
        store_aliases_distinct(res.read_able_transaction.stored()),
        store_aliases_plain(res.read_able_transaction.stored()),
    ensures
        label_ok(id, alias_in(res.read_able_transaction.stored(), id)),
        is_token(id_label(id, alias_in(res.read_able_transaction.stored(), id))),
        label_names(res, id_label(id, alias_in(res.read_able_transaction.stored(), id)), id),
{
    reveal(store_aliases_distinct);
    reveal(store_aliases_plain);
    let stored = res.read_able_transaction.stored();
    let l = id_label(id, alias_in(stored, id));
    if alias_in(stored, id) is None {
        lemma_reference_of_id_text(id);
    } else {
        assert(stored.contains_key(id));
        let a = stored[id].alias->0;
        assert(reference_of(l) == ReferenceView::Alias(a));
        assert(known_lookup(res.known_aliases@, a) is None);
        assert forall|x: Seq<u8>| #[trigger] res.stands_for(reference_of(l), x) implies x == id by {
            assert(stored.contains_key(x) && stored[x].alias == Some(a));
        }
    }
    lemma_label_token(id, alias_in(stored, id));
}

proof fn lemma_set_alias_label_read_back<R: AliasesResolver>(
    thesis_id: Seq<u8>,
    alias: Seq<char>,
    l: Seq<char>,
    d: CommandView,
    kinds: Seq<RelationKind>,
    res: R,
)
    requires
        is_token(alias),
        is_token(l),
        label_names(res, l, thesis_id),
        d is SetAlias,
        read_as(d, may_prefix() + alias + alias_infix() + l, kinds),
        resolved_by(d, may_prefix() + alias + alias_infix() + l, res),
    ensures
        d == (CommandView::SetAlias { thesis_id, alias }),
{
    lemma_set_alias_line(alias, l);
}

proof fn lemma_tags_label_read_back<R: AliasesResolver>(
    thesis_id: Seq<u8>,
    tags: Seq<Seq<char>>,
    l: Seq<char>,
    d: CommandView,
    kinds: Seq<RelationKind>,
    res: R,
)
    requires
        tags.len() >= 1,
        all_tokens(tags),
        is_token(l),
        label_names(res, l, thesis_id),
        d is AddTags ==> read_as(d, may_prefix() + join_tags(tags) + tag_infix() + l, kinds) && resolved_by(
            d,
            may_prefix() + join_tags(tags) + tag_infix() + l,
            res,
        ),
        d is RemoveTags ==> read_as(d, may_prefix() + join_tags(tags) + not_tag_infix() + l, kinds)
            && resolved_by(d, may_prefix() + join_tags(tags) + not_tag_infix() + l, res),
    ensures
        d is AddTags ==> d == (CommandView::AddTags { thesis_id, tags }),
        d is RemoveTags ==> d == (CommandView::RemoveTags { thesis_id, tags }),
{
    if d is AddTags {
        lemma_add_tags_line(tags, l);
    }
    if d is RemoveTags {
        lemma_remove_tags_line(tags, l);
    }
}

proof fn lemma_relation_label_read_back<R: AliasesResolver>(
    relation: RelationView,
    alias: Option<Seq<char>>,
    lf: Seq<char>,
    lt: Seq<char>,
    d: CommandView,
    kinds: Seq<RelationKind>,
    res: R,
)
    requires
        is_line_text(relation.kind),
        is_token(lf),
        is_token(lt),
        label_names(res, lf, relation.from),
        label_names(res, lt, relation.to),
        alias matches Some(a) ==> is_token(a) && d is AddRelationThesisWithAlias && read_as(
            d,
            may_prefix() + a + alias_infix() + relation_line(lf, relation.kind, lt),
            kinds,
        ) && resolved_by(d, may_prefix() + a + alias_infix() + relation_line(lf, relation.kind, lt), res),
        alias is None ==> d is AddRelationThesisWithoutAlias && read_as(
            d,
            may_prefix() + relation_line(lf, relation.kind, lt),
            kinds,
        ) && resolved_by(d, may_prefix() + relation_line(lf, relation.kind, lt), res),
    ensures
        alias matches Some(a) ==> d == (CommandView::AddRelationThesisWithAlias { relation, alias: a }),
        alias is None ==> d == CommandView::AddRelationThesisWithoutAlias(relation),
{
    match alias {
        Some(a) => {
            lemma_relation_with_alias_line(a, lf, relation.kind, lt);
        },
        None => {
            lemma_relation_line(lf, relation.kind, lt);
        },
    }
}

/// A store's label of the thesis `id`: its alias there, else its identifier.
pub open spec fn store_label(stored: Map<Seq<u8>, ThesisView>, id: Seq<u8>) -> Seq<char> {
    id_label(id, alias_in(stored, id))
}

/// The resolver remembers nothing and reads through a store whose aliases are distinct and
/// not the written form of an identifier.
pub open spec fn plain_store_resolver<'a, T: ReadTransactionMethods>(res: LocalAliasesResolver<'a, T>) -> bool {
    &&& res.known_aliases@.len() == 0
    &&& store_aliases_distinct(res.read_able_transaction.stored())
    &&& store_aliases_plain(res.read_able_transaction.stored())
}

proof fn lemma_store_set_alias<'a, T: ReadTransactionMethods>(
    thesis_id: Seq<u8>,
    alias: Seq<char>,
    d: CommandView,
    kinds: Seq<RelationKind>,
    res: LocalAliasesResolver<'a, T>,
)
    requires
        thesis_id.len() == 16,
        plain_store_resolver(res),
        is_token(alias),
        d is SetAlias,
        read_as(d, may_prefix() + alias + alias_infix() + store_label(res.read_able_transaction.stored(), thesis_id), kinds),
        resolved_by(d, may_prefix() + alias + alias_infix() + store_label(res.read_able_transaction.stored(), thesis_id), res),
    ensures
        d == (CommandView::SetAlias { thesis_id, alias }),
{
    lemma_store_label_names(res, thesis_id);
    lemma_set_alias_label_read_back(thesis_id, alias, store_label(res.read_able_transaction.stored(), thesis_id), d, kinds, res);
}

proof fn lemma_store_tags<'a, T: ReadTransactionMethods>(
    thesis_id: Seq<u8>,
    tags: Seq<Seq<char>>,
    d: CommandView,
    kinds: Seq<RelationKind>,
    res: LocalAliasesResolver<'a, T>,
)
    requires
        thesis_id.len() == 16,
        plain_store_resolver(res),
        tags.len() >= 1,
        all_tokens(tags),
        d is AddTags ==> read_as(d, may_prefix() + join_tags(tags) + tag_infix() + store_label(res.read_able_transaction.stored(), thesis_id), kinds)
            && resolved_by(d, may_prefix() + join_tags(tags) + tag_infix() + store_label(res.read_able_transaction.stored(), thesis_id), res),
        d is RemoveTags ==> read_as(d, may_prefix() + join_tags(tags) + not_tag_infix() + store_label(res.read_able_transaction.stored(), thesis_id), kinds)
            && resolved_by(d, may_prefix() + join_tags(tags) + not_tag_infix() + store_label(res.read_able_transaction.stored(), thesis_id), res),
    ensures
        d is AddTags ==> d == (CommandView::AddTags { thesis_id, tags }),
        d is RemoveTags ==> d == (CommandView::RemoveTags { thesis_id, tags }),
{
    lemma_store_label_names(res, thesis_id);
    lemma_tags_label_read_back(thesis_id, tags, store_label(res.read_able_transaction.stored(), thesis_id), d, kinds, res);
}

proof fn lemma_store_relation<'a, T: ReadTransactionMethods>(
    relation: RelationView,
    alias: Option<Seq<char>>,
    d: CommandView,
    kinds: Seq<RelationKind>,
    res: LocalAliasesResolver<'a, T>,
)
    requires
        relation.from.len() == 16,
        relation.to.len() == 16,
        plain_store_resolver(res),
        is_line_text(relation.kind),
        alias matches Some(a) ==> is_token(a) && d is AddRelationThesisWithAlias && read_as(
            d,
            may_prefix() + a + alias_infix() + relation_line(
                store_label(res.read_able_transaction.stored(), relation.from),
                relation.kind,
                store_label(res.read_able_transaction.stored(), relation.to),
            ),
            kinds,
        ) && resolved_by(
            d,
            may_prefix() + a + alias_infix() + relation_line(
                store_label(res.read_able_transaction.stored(), relation.from),
                relation.kind,
                store_label(res.read_able_transaction.stored(), relation.to),
            ),
            res,
        ),
        alias is None ==> d is AddRelationThesisWithoutAlias && read_as(
            d,
            may_prefix() + relation_line(
                store_label(res.read_able_transaction.stored(), relation.from),
                relation.kind,
                store_label(res.read_able_transaction.stored(), relation.to),
            ),
            kinds,
        ) && resolved_by(
            d,
            may_prefix() + relation_line(
                store_label(res.read_able_transaction.stored(), relation.from),
                relation.kind,
                store_label(res.read_able_transaction.stored(), relation.to),
            ),
            res,
        ),
    ensures
        alias matches Some(a) ==> d == (CommandView::AddRelationThesisWithAlias { relation, alias: a }),
        alias is None ==> d == CommandView::AddRelationThesisWithoutAlias(relation),
{
    lemma_store_label_names(res, relation.from);
    lemma_store_label_names(res, relation.to);
    lemma_relation_label_read_back(
        relation,
        alias,
        store_label(res.read_able_transaction.stored(), relation.from),
        store_label(res.read_able_transaction.stored(), relation.to),
        d,
        kinds,
        res,
    );
}

/// A command that is not a text, written as a store writes it (each thesis by its alias
/// there, else by its identifier, as `to_parsable` does), and read back in its own form
/// through a local resolver over that store that remembers nothing, is the command itself,
/// when the store's aliases are distinct and are not the written form of an identifier.
pub proof fn lemma_store_written_command_read_back<'a, T: ReadTransactionMethods>(
    c: CommandView,
    d: CommandView,
    kinds: Seq<RelationKind>,
    res: LocalAliasesResolver<'a, T>,
)
    requires
        !(c is AddTextThesisWithAlias || c is AddTextThesisWithoutAlias),
        command_ids_sized(c),
        plain_store_resolver(res),
        writable(c, command_store_aliases(c, res.read_able_transaction.stored())),
        same_form(c, d),
        read_as(d, command_line(c, command_store_aliases(c, res.read_able_transaction.stored())), kinds),
        resolved_by(d, command_line(c, command_store_aliases(c, res.read_able_transaction.stored())), res),
    ensures
        d == c,
{
    let stored = res.read_able_transaction.stored();
    match c {
        CommandView::SetAlias { thesis_id, alias } => {
            assert(command_store_aliases(c, stored)[0] == alias_in(stored, thesis_id));
            lemma_store_set_alias(thesis_id, alias, d, kinds, res);
        },
        CommandView::AddTags { thesis_id, tags } => {
            assert(command_store_aliases(c, stored)[0] == alias_in(stored, thesis_id));
            lemma_store_tags(thesis_id, tags, d, kinds, res);
        },
        CommandView::RemoveTags { thesis_id, tags } => {
            assert(command_store_aliases(c, stored)[0] == alias_in(stored, thesis_id));
            lemma_store_tags(thesis_id, tags, d, kinds, res);
        },
        CommandView::AddRelationThesisWithAlias { relation, alias } => {
            assert(command_store_aliases(c, stored)[0] == alias_in(stored, relation.from));
            assert(command_store_aliases(c, stored)[1] == alias_in(stored, relation.to));
            lemma_store_relation(relation, Some(alias), d, kinds, res);
        },
        CommandView::AddRelationThesisWithoutAlias(relation) => {
            assert(command_store_aliases(c, stored)[0] == alias_in(stored, relation.from));
            assert(command_store_aliases(c, stored)[1] == alias_in(stored, relation.to));
            lemma_store_relation(relation, None, d, kinds, res);
        },
        _ => {},
    }
}

} // verus!
