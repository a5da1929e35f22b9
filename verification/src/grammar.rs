use vstd::prelude::*;

use crate::strings::{char_is_white_space, is_white_space, push_char};

verus! {

//  The forms of command lines. Each `match_*` spec function states what the corresponding
//  pattern of the command syntax captures from a line, with the usual leftmost-first and
//  greedy reading of `+`:
//    set alias              /may +(\S+) +alias +(\S+)
//    remove tags            /may +(\S+(?: +\S+)*) +not tag +(\S+)
//    add tags               /may +(\S+(?: +\S+)*) +tag +(\S+)
//    relation with alias    /may +(\S+) alias +(\S+) +(.+) +(\S+)
//    relation               /may +(\S+) +(.+) +(\S+)
//    text with alias        /may +(\S+) +alias +(.+)
//    text                   /may +(.+)
//  Each pattern must cover the whole line; `\S` is any character but white space and `.` any
//  character but a line feed.

pub open spec fn may_word() -> Seq<char> {
    seq!['/', 'm', 'a', 'y']
}

pub open spec fn alias_word() -> Seq<char> {
    seq!['a', 'l', 'i', 'a', 's']
}

pub open spec fn space_alias_word() -> Seq<char> {
    seq![' ', 'a', 'l', 'i', 'a', 's']
}

pub open spec fn tag_word() -> Seq<char> {
    seq!['t', 'a', 'g']
}

pub open spec fn not_tag_words() -> Seq<char> {
    seq!['n', 'o', 't', ' ', 't', 'a', 'g']
}

/// `s[i..i + w.len()]` is `w`.
pub open spec fn has_word_at(s: Seq<char>, i: int, w: Seq<char>) -> bool {
    0 <= i && i + w.len() <= s.len() && s.subrange(i, i + w.len()) == w
}

/// The number of spaces in a row from `i` on.
pub open spec fn spaces_from(s: Seq<char>, i: int) -> nat
    decreases s.len() - i,
{
    if 0 <= i < s.len() && s[i] == ' ' {
        1 + spaces_from(s, i + 1)
    } else {
        0
    }
}

/// The number of characters in a row from `i` on that are not white space.
pub open spec fn token_from(s: Seq<char>, i: int) -> nat
    decreases s.len() - i,
{
    if 0 <= i < s.len() && !is_white_space(s[i]) {
        1 + token_from(s, i + 1)
    } else {
        0
    }
}

/// The number of spaces in a row that end just before `j`.
pub open spec fn spaces_before(s: Seq<char>, j: int) -> nat
    decreases j,
{
    if 0 < j <= s.len() && s[j - 1] == ' ' {
        1 + spaces_before(s, j - 1)
    } else {
        0
    }
}

/// Where the run of characters that are not white space and that ends at `j` starts.
pub open spec fn token_start_before(s: Seq<char>, j: int) -> int
    decreases j,
{
    if 0 < j <= s.len() && !is_white_space(s[j - 1]) {
        token_start_before(s, j - 1)
    } else {
        j
    }
}

/// No line feed in `s[i..j]`.
pub open spec fn no_line_feed(s: Seq<char>, i: int, j: int) -> bool {
    forall|k: int| i <= k < j ==> s[k] != '\n'
}

/// Every character of `s[i..j]` is a space or not white space.
pub open spec fn spaced_tokens(s: Seq<char>, i: int, j: int) -> bool {
    forall|k: int| i <= k < j ==> (s[k] == ' ' || !is_white_space(s[k]))
}

/// Where the spaces after `/may` end, when the line starts with `/may` and a space.
pub open spec fn body_start(s: Seq<char>) -> Option<int> {
    if has_word_at(s, 0, may_word()) && spaces_from(s, 4) >= 1 {
        Some(4 + spaces_from(s, 4) as int)
    } else {
        None
    }
}

/// `/may +(\S+) +alias +(\S+)`: the new alias and the reference.
pub open spec fn match_set_alias(s: Seq<char>) -> Option<(Seq<char>, Seq<char>)> {
    match body_start(s) {
        None => None,
        Some(a) => {
            let b = a + token_from(s, a);
            let c = b + spaces_from(s, b);
            let d = c + 5;
            let e = d + spaces_from(s, d);
            if b > a && c > b && has_word_at(s, c, alias_word()) && e > d && e + token_from(s, e)
                == s.len() && token_from(s, e) > 0 {
                Some((s.subrange(a, b), s.subrange(e, s.len() as int)))
            } else {
                None
            }
        },
    }
}

/// `/may +(\S+(?: +\S+)*) +<marker> +(\S+)`: the tags and the reference.
pub open spec fn match_tags(s: Seq<char>, marker: Seq<char>) -> Option<(Seq<char>, Seq<char>)> {
    match body_start(s) {
        None => None,
        Some(a) => {
            let ys = token_start_before(s, s.len() as int);
            let q = ys - spaces_before(s, ys);
            let m = q - marker.len();
            let g = m - spaces_before(s, m);
            if ys < s.len() && q < ys && has_word_at(s, m, marker) && g < m && a < g
                && spaced_tokens(s, a, g) {
                Some((s.subrange(a, g), s.subrange(ys, s.len() as int)))
            } else {
                None
            }
        },
    }
}

/// `/may +(\S+(?: +\S+)*) +not tag +(\S+)`.
pub open spec fn match_remove_tags(s: Seq<char>) -> Option<(Seq<char>, Seq<char>)> {
    match_tags(s, not_tag_words())
}

/// `/may +(\S+(?: +\S+)*) +tag +(\S+)`.
pub open spec fn match_add_tags(s: Seq<char>) -> Option<(Seq<char>, Seq<char>)> {
    match_tags(s, tag_word())
}

/// After a token ending at `g`, ` +(.+) +(\S+)` up to the end: the middle and the last token.
pub open spec fn match_middle_and_last(s: Seq<char>, g: int) -> Option<(Seq<char>, Seq<char>)> {
    let q = g + spaces_from(s, g);
    let ys = token_start_before(s, s.len() as int);
    let e = ys - 1;
    let start = if q < e {
        q
    } else {
        e - 1
    };
    if q > g && ys < s.len() && 0 <= e && s[e] == ' ' && g < start && start < e && no_line_feed(
        s,
        start,
        e,
    ) {
        Some((s.subrange(start, e), s.subrange(ys, s.len() as int)))
    } else {
        None
    }
}

/// `/may +(\S+) alias +(\S+) +(.+) +(\S+)`: alias, from, kind, to.
pub open spec fn match_relation_with_alias(s: Seq<char>) -> Option<
    (Seq<char>, Seq<char>, Seq<char>, Seq<char>),
> {
    match body_start(s) {
        None => None,
        Some(a) => {
            let b = a + token_from(s, a);
            let c = b + 6;
            let f = c + spaces_from(s, c);
            let g = f + token_from(s, f);
            if b > a && has_word_at(s, b, space_alias_word()) && f > c && g > f {
                match match_middle_and_last(s, g) {
                    Some((kind, to)) => Some((s.subrange(a, b), s.subrange(f, g), kind, to)),
                    None => None,
                }
            } else {
                None
            }
        },
    }
}

/// `/may +(\S+) +(.+) +(\S+)`: from, kind, to.
pub open spec fn match_relation(s: Seq<char>) -> Option<(Seq<char>, Seq<char>, Seq<char>)> {
    match body_start(s) {
        None => None,
        Some(a) => {
            let b = a + token_from(s, a);
            if b > a {
                match match_middle_and_last(s, b) {
                    Some((kind, to)) => Some((s.subrange(a, b), kind, to)),
                    None => None,
                }
            } else {
                None
            }
        },
    }
}

/// From `d`, ` +(.+)` up to the end of the line.
pub open spec fn match_rest(s: Seq<char>, d: int) -> Option<Seq<char>> {
    let k = spaces_from(s, d);
    let start = if d + k < s.len() {
        d + k
    } else {
        s.len() - 1
    };
    if k >= 1 && d < start && start < s.len() && no_line_feed(s, start, s.len() as int) {
        Some(s.subrange(start, s.len() as int))
    } else {
        None
    }
}

/// `/may +(\S+) +alias +(.+)`: the alias and the text.
pub open spec fn match_text_with_alias(s: Seq<char>) -> Option<(Seq<char>, Seq<char>)> {
    match body_start(s) {
        None => None,
        Some(a) => {
            let b = a + token_from(s, a);
            let c = b + spaces_from(s, b);
            if b > a && c > b && has_word_at(s, c, alias_word()) {
                match match_rest(s, c + 5) {
                    Some(text) => Some((s.subrange(a, b), text)),
                    None => None,
                }
            } else {
                None
            }
        },
    }
}

/// `/may +(.+)`: the text.
pub open spec fn match_text(s: Seq<char>) -> Option<Seq<char>> {
    if has_word_at(s, 0, may_word()) {
        match_rest(s, 4)
    } else {
        None
    }
}

//  Executable scanning.

fn count_spaces(v: &Vec<char>, i: usize) -> (n: usize)
    ensures
        n == spaces_from(v@, i as int),
        i + n <= v@.len() || n == 0,
{
    proof {
        vstd::std_specs::vec::axiom_spec_len(v);
    }
    assert(v@.len() <= usize::MAX);
    let mut j: usize = i;
    if i >= v.len() {
        return 0;
    }
    while j < v.len() && v[j] == ' '
        invariant
            i <= j <= v@.len(),
            spaces_from(v@, i as int) == (j - i) + spaces_from(v@, j as int),
        decreases v@.len() - j,
    {
        j = j + 1;
    }
    j - i
}

fn count_token(v: &Vec<char>, i: usize) -> (n: usize)
    ensures
        n == token_from(v@, i as int),
        i + n <= v@.len() || n == 0,
{
    proof {
        vstd::std_specs::vec::axiom_spec_len(v);
    }
    assert(v@.len() <= usize::MAX);
    if i >= v.len() {
        return 0;
    }
    let mut j: usize = i;
    while j < v.len() && !char_is_white_space(v[j])
        invariant
            i <= j <= v@.len(),
            token_from(v@, i as int) == (j - i) + token_from(v@, j as int),
        decreases v@.len() - j,
    {
        j = j + 1;
    }
    j - i
}

fn count_spaces_before(v: &Vec<char>, j: usize) -> (n: usize)
    requires
        j <= v@.len(),
    ensures
        n == spaces_before(v@, j as int),
        n <= j,
{
    proof {
        vstd::std_specs::vec::axiom_spec_len(v);
    }
    assert(v@.len() <= usize::MAX);
    let mut k: usize = j;
    while k > 0 && v[k - 1] == ' '
        invariant
            k <= j <= v@.len(),
            spaces_before(v@, j as int) == (j - k) + spaces_before(v@, k as int),
        decreases k,
    {
        k = k - 1;
    }
    j - k
}

fn find_token_start_before(v: &Vec<char>, j: usize) -> (k: usize)
    requires
        j <= v@.len(),
    ensures
        k == token_start_before(v@, j as int),
        k <= j,
{
    proof {
        vstd::std_specs::vec::axiom_spec_len(v);
    }
    assert(v@.len() <= usize::MAX);
    let mut k: usize = j;
    while k > 0 && !char_is_white_space(v[k - 1])
        invariant
            k <= j <= v@.len(),
            token_start_before(v@, j as int) == token_start_before(v@, k as int),
        decreases k,
    {
        k = k - 1;
    }
    k
}

fn word_at(v: &Vec<char>, i: usize, w: &[char]) -> (r: bool)
    ensures
        r == has_word_at(v@, i as int, w@),
{
    if i > v.len() || w.len() > v.len() - i {
        return false;
    }
    let mut k: usize = 0;
    while k < w.len()
        invariant
            i + w@.len() <= v@.len(),
            v@.len() <= usize::MAX,
            k <= w@.len(),
            forall|m: int| 0 <= m < k ==> v@[i + m] == w@[m],
        decreases w@.len() - k,
    {
        if v[i + k] != w[k] {
            assert(v@.subrange(i as int, i + w@.len())[k as int] != w@[k as int]);
            return false;
        }
        k = k + 1;
    }
    assert(v@.subrange(i as int, i + w@.len()) =~= w@);
    true
}

fn line_feed_free(v: &Vec<char>, i: usize, j: usize) -> (r: bool)
    requires
        i <= j <= v@.len(),
    ensures
        r == no_line_feed(v@, i as int, j as int),
{
    proof {
        vstd::std_specs::vec::axiom_spec_len(v);
    }
    assert(v@.len() <= usize::MAX);
    let mut k: usize = i;
    while k < j
        invariant
            i <= k <= j <= v@.len(),
            forall|m: int| i <= m < k ==> v@[m] != '\n',
        decreases j - k,
    {
        if v[k] == '\n' {
            return false;
        }
        k = k + 1;
    }
    true
}

fn spaced_tokens_exec(v: &Vec<char>, i: usize, j: usize) -> (r: bool)
    requires
        i <= j <= v@.len(),
    ensures
        r == spaced_tokens(v@, i as int, j as int),
{
    proof {
        vstd::std_specs::vec::axiom_spec_len(v);
    }
    assert(v@.len() <= usize::MAX);
    let mut k: usize = i;
    while k < j
        invariant
            i <= k <= j <= v@.len(),
            forall|m: int| i <= m < k ==> (v@[m] == ' ' || !is_white_space(v@[m])),
        decreases j - k,
    {
        if v[k] != ' ' && char_is_white_space(v[k]) {
            return false;
        }
        k = k + 1;
    }
    true
}

fn find_body_start(v: &Vec<char>) -> (r: Option<usize>)
    ensures
        r matches Some(a) ==> body_start(v@) == Some(a as int) && a <= v@.len(),
        r is None ==> body_start(v@) is None,
{
    proof {
        vstd::std_specs::vec::axiom_spec_len(v);
    }
    assert(v@.len() <= usize::MAX);
    let may = ['/', 'm', 'a', 'y'];
    assert(may@ =~= may_word());
    if !word_at(v, 0, may.as_slice()) {
        return None;
    }
    let k = count_spaces(v, 4);
    if k == 0 {
        return None;
    }
    Some(4 + k)
}

/// Reads a line as `/may <alias> alias <reference>`.
pub fn match_set_alias_exec(v: &Vec<char>) -> (r: Option<(usize, usize, usize)>)
    ensures
        match r {
            Some((a, b, e)) => a <= b <= e <= v@.len() && match_set_alias(v@) == Some(
                (v@.subrange(a as int, b as int), v@.subrange(e as int, v@.len() as int)),
            ),
            None => match_set_alias(v@) is None,
        },
{
    proof {
        vstd::std_specs::vec::axiom_spec_len(v);
    }
    assert(v@.len() <= usize::MAX);
    let a = match find_body_start(v) {
        Some(a) => a,
        None => return None,
    };
    let b = a + count_token(v, a);
    let c = b + count_spaces(v, b);
    let alias = ['a', 'l', 'i', 'a', 's'];
    assert(alias@ =~= alias_word());
    if !(b > a && c > b && word_at(v, c, alias.as_slice())) {
        return None;
    }
    let d = c + 5;
    let e = d + count_spaces(v, d);
    let t = count_token(v, e);
    if e > d && t > 0 && e + t == v.len() {
        Some((a, b, e))
    } else {
        None
    }
}

fn match_tags_exec(v: &Vec<char>, marker: &[char]) -> (r: Option<(usize, usize, usize)>)
    ensures
        match r {
            Some((a, g, ys)) => a <= g <= ys <= v@.len() && match_tags(v@, marker@) == Some(
                (v@.subrange(a as int, g as int), v@.subrange(ys as int, v@.len() as int)),
            ),
            None => match_tags(v@, marker@) is None,
        },
{
    proof {
        vstd::std_specs::vec::axiom_spec_len(v);
    }
    assert(v@.len() <= usize::MAX);
    let a = match find_body_start(v) {
        Some(a) => a,
        None => return None,
    };
    let ys = find_token_start_before(v, v.len());
    let q = ys - count_spaces_before(v, ys);
    if !(ys < v.len() && q < ys && q >= marker.len()) {
        return None;
    }
    let m = q - marker.len();
    if !word_at(v, m, marker) {
        return None;
    }
    let g = m - count_spaces_before(v, m);
    if g < m && a < g && spaced_tokens_exec(v, a, g) {
        Some((a, g, ys))
    } else {
        None
    }
}

/// Reads a line as `/may <tags> not tag <reference>`.
pub fn match_remove_tags_exec(v: &Vec<char>) -> (r: Option<(usize, usize, usize)>)
    ensures
        match r {
            Some((a, g, ys)) => a <= g <= ys <= v@.len() && match_remove_tags(v@) == Some(
                (v@.subrange(a as int, g as int), v@.subrange(ys as int, v@.len() as int)),
            ),
            None => match_remove_tags(v@) is None,
        },
{
    proof {
        vstd::std_specs::vec::axiom_spec_len(v);
    }
    assert(v@.len() <= usize::MAX);
    let marker = ['n', 'o', 't', ' ', 't', 'a', 'g'];
    assert(marker@ =~= not_tag_words());
    match_tags_exec(v, marker.as_slice())
}

/// Reads a line as `/may <tags> tag <reference>`.
pub fn match_add_tags_exec(v: &Vec<char>) -> (r: Option<(usize, usize, usize)>)
    ensures
        match r {
            Some((a, g, ys)) => a <= g <= ys <= v@.len() && match_add_tags(v@) == Some(
                (v@.subrange(a as int, g as int), v@.subrange(ys as int, v@.len() as int)),
            ),
            None => match_add_tags(v@) is None,
        },
{
    proof {
        vstd::std_specs::vec::axiom_spec_len(v);
    }
    assert(v@.len() <= usize::MAX);
    let marker = ['t', 'a', 'g'];
    assert(marker@ =~= tag_word());
    match_tags_exec(v, marker.as_slice())
}

fn match_middle_and_last_exec(v: &Vec<char>, g: usize) -> (r: Option<(usize, usize, usize)>)
    requires
        g <= v@.len(),
    ensures
        match r {
            Some((start, e, ys)) => g < start <= e <= ys <= v@.len() && match_middle_and_last(v@, g as int)
                == Some(
                (v@.subrange(start as int, e as int), v@.subrange(ys as int, v@.len() as int)),
            ),
            None => match_middle_and_last(v@, g as int) is None,
        },
{
    proof {
        vstd::std_specs::vec::axiom_spec_len(v);
    }
    assert(v@.len() <= usize::MAX);
    let q = g + count_spaces(v, g);
    let ys = find_token_start_before(v, v.len());
    if !(q > g && ys < v.len() && ys >= 1) {
        return None;
    }
    let e = ys - 1;
    if v[e] != ' ' {
        return None;
    }
    if !(q < e || e >= 1) {
        return None;
    }
    let start = if q < e {
        q
    } else {
        e - 1
    };
    if g < start && start < e && line_feed_free(v, start, e) {
        Some((start, e, ys))
    } else {
        None
    }
}

/// Reads a line as `/may <alias> alias <from> <kind> <to>`.
pub fn match_relation_with_alias_exec(v: &Vec<char>) -> (r: Option<(usize, usize, usize, usize, usize, usize, usize)>)
    ensures
        match r {
            Some((a, b, f, g, start, e, ys)) => a <= b <= f <= g <= start <= e <= ys <= v@.len()
                && match_relation_with_alias(v@) == Some(
                (
                    v@.subrange(a as int, b as int),
                    v@.subrange(f as int, g as int),
                    v@.subrange(start as int, e as int),
                    v@.subrange(ys as int, v@.len() as int),
                ),
            ),
            None => match_relation_with_alias(v@) is None,
        },
{
    proof {
        vstd::std_specs::vec::axiom_spec_len(v);
    }
    assert(v@.len() <= usize::MAX);
    let a = match find_body_start(v) {
        Some(a) => a,
        None => return None,
    };
    let b = a + count_token(v, a);
    let space_alias = [' ', 'a', 'l', 'i', 'a', 's'];
    assert(space_alias@ =~= space_alias_word());
    if !(b > a && word_at(v, b, space_alias.as_slice())) {
        return None;
    }
    let c = b + 6;
    let f = c + count_spaces(v, c);
    let g = f + count_token(v, f);
    if !(f > c && g > f) {
        return None;
    }
    match match_middle_and_last_exec(v, g) {
        Some((start, e, ys)) => Some((a, b, f, g, start, e, ys)),
        None => None,
    }
}

/// Reads a line as `/may <from> <kind> <to>`.
pub fn match_relation_exec(v: &Vec<char>) -> (r: Option<(usize, usize, usize, usize, usize)>)
    ensures
        match r {
            Some((a, b, start, e, ys)) => a <= b <= start <= e <= ys <= v@.len() && match_relation(v@)
                == Some(
                (
                    v@.subrange(a as int, b as int),
                    v@.subrange(start as int, e as int),
                    v@.subrange(ys as int, v@.len() as int),
                ),
            ),
            None => match_relation(v@) is None,
        },
{
    proof {
        vstd::std_specs::vec::axiom_spec_len(v);
    }
    assert(v@.len() <= usize::MAX);
    let a = match find_body_start(v) {
        Some(a) => a,
        None => return None,
    };
    let b = a + count_token(v, a);
    if b <= a {
        return None;
    }
    match match_middle_and_last_exec(v, b) {
        Some((start, e, ys)) => Some((a, b, start, e, ys)),
        None => None,
    }
}

fn match_rest_exec(v: &Vec<char>, d: usize) -> (r: Option<usize>)
    ensures
        match r {
            Some(start) => d < start <= v@.len() && match_rest(v@, d as int) == Some(
                v@.subrange(start as int, v@.len() as int),
            ),
            None => match_rest(v@, d as int) is None,
        },
{
    proof {
        vstd::std_specs::vec::axiom_spec_len(v);
    }
    assert(v@.len() <= usize::MAX);
    let k = count_spaces(v, d);
    if k == 0 {
        return None;
    }
    let start = if d + k < v.len() {
        d + k
    } else {
        v.len() - 1
    };
    if d < start && start < v.len() && line_feed_free(v, start, v.len()) {
        Some(start)
    } else {
        None
    }
}

/// Reads a line as `/may <alias> alias <text>`.
pub fn match_text_with_alias_exec(v: &Vec<char>) -> (r: Option<(usize, usize, usize)>)
    ensures
        match r {
            Some((a, b, start)) => a <= b <= start <= v@.len() && match_text_with_alias(v@) == Some(
                (v@.subrange(a as int, b as int), v@.subrange(start as int, v@.len() as int)),
            ),
            None => match_text_with_alias(v@) is None,
        },
{
    proof {
        vstd::std_specs::vec::axiom_spec_len(v);
    }
    assert(v@.len() <= usize::MAX);
    let a = match find_body_start(v) {
        Some(a) => a,
        None => return None,
    };
    let b = a + count_token(v, a);
    let c = b + count_spaces(v, b);
    let alias = ['a', 'l', 'i', 'a', 's'];
    assert(alias@ =~= alias_word());
    if !(b > a && c > b && word_at(v, c, alias.as_slice())) {
        return None;
    }
    match match_rest_exec(v, c + 5) {
        Some(start) => Some((a, b, start)),
        None => None,
    }
}

/// Reads a line as `/may <text>`.
pub fn match_text_exec(v: &Vec<char>) -> (r: Option<usize>)
    ensures
        match r {
            Some(start) => start <= v@.len() && match_text(v@) == Some(
                v@.subrange(start as int, v@.len() as int),
            ),
            None => match_text(v@) is None,
        },
{
    proof {
        vstd::std_specs::vec::axiom_spec_len(v);
    }
    assert(v@.len() <= usize::MAX);
    let may = ['/', 'm', 'a', 'y'];
    assert(may@ =~= may_word());
    if !word_at(v, 0, may.as_slice()) {
        return None;
    }
    match_rest_exec(v, 4)
}

} // verus!

verus! {

/// The pieces of `s` between single spaces (two spaces in a row give an empty piece).
pub open spec fn split_at_spaces(s: Seq<char>) -> Seq<Seq<char>>
    decreases s.len(),
{
    if s.len() == 0 {
        seq![seq![]]
    } else {
        let p = split_at_spaces(s.drop_last());
        if s.last() == ' ' {
            p.push(seq![])
        } else {
            p.update(p.len() - 1, p.last().push(s.last()))
        }
    }
}

pub proof fn lemma_split_nonempty(s: Seq<char>)
    ensures
        split_at_spaces(s).len() >= 1,
    decreases s.len(),
{
    if s.len() > 0 {
        lemma_split_nonempty(s.drop_last());
    }
}

pub open spec fn strings_view(v: Seq<String>) -> Seq<Seq<char>> {
    v.map_values(|s: String| s@)
}

/// Splits `v[from..to]` at single spaces.
pub fn split_at_spaces_exec(v: &Vec<char>, from: usize, to: usize) -> (r: Vec<String>)
    requires
        from <= to <= v@.len(),
    ensures
        strings_view(r@) == split_at_spaces(v@.subrange(from as int, to as int)),
{
    let mut done: Vec<String> = Vec::new();
    let mut current = String::new();
    let mut i: usize = from;
    assert(split_at_spaces(v@.subrange(from as int, from as int)) =~= seq![seq![]]);
    assert(strings_view(done@).push(current@) =~= seq![seq![]]);
    while i < to
        invariant
            from <= i <= to <= v@.len(),
            strings_view(done@).push(current@) == split_at_spaces(v@.subrange(from as int, i as int)),
        decreases to - i,
    {
        let c = v[i];
        let ghost before = v@.subrange(from as int, i as int);
        let ghost after = v@.subrange(from as int, i + 1);
        assert(after.drop_last() =~= before);
        proof {
            lemma_split_nonempty(before);
        }
        if c == ' ' {
            let finished = current;
            done.push(finished);
            current = String::new();
            assert(strings_view(done@).push(current@) =~= split_at_spaces(after));
        } else {
            push_char(&mut current, c);
            assert(strings_view(done@).push(current@) =~= split_at_spaces(after));
        }
        i = i + 1;
    }
    done.push(current);
    assert(strings_view(done@) =~= split_at_spaces(v@.subrange(from as int, to as int)));
    done
}

} // verus!
