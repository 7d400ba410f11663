//! The text layout engine: greedy word wrapping to a fixed column width with
//! distinct first-line and continuation indents, and natural-language name
//! lists.
//!
//! Text is broken into words on whitespace; lines are filled greedily so that
//! no line exceeds the column width, except that a word too wide for the
//! space after the indent is placed alone on its own line rather than broken
//! or truncated.
use crate::width::cell_width;
use crate::width::char_cell_width;
use crate::width::display_width;
use crate::width::lemma_str_width_concat;
use crate::width::str_width;
use crate::width::MAX_TEXT_LEN;
use vstd::prelude::*;

verus! {

/// The characters on which text is broken into words.
pub open spec fn is_break_char(c: char) -> bool {
    c == ' ' || c == '\t' || c == '\n' || c == '\r'
}

fn break_char(c: char) -> (r: bool)
    ensures
        r == is_break_char(c),
{
    c == ' ' || c == '\t' || c == '\n' || c == '\r'
}

/// Length of the leading run of non-break characters.
pub open spec fn leading_word_len(s: Seq<char>) -> int
    decreases s.len(),
{
    if s.len() == 0 || is_break_char(s[0]) {
        0
    } else {
        1 + leading_word_len(s.drop_first())
    }
}

proof fn lemma_leading_word_len_bounds(s: Seq<char>)
    ensures
        0 <= leading_word_len(s) <= s.len(),
        s.len() > 0 && !is_break_char(s[0]) ==> 1 <= leading_word_len(s),
    decreases s.len(),
{
    if s.len() == 0 || is_break_char(s[0]) {
    } else {
        lemma_leading_word_len_bounds(s.drop_first());
    }
}

/// The leading word ends exactly where the first break character (or the end
/// of the text) stands.
proof fn lemma_leading_word_len_run(s: Seq<char>, k: int)
    requires
        0 <= k <= s.len(),
        forall|t: int| 0 <= t < k ==> !is_break_char(s[t]),
        k < s.len() ==> is_break_char(s[k]),
    ensures
        leading_word_len(s) == k,
    decreases k,
{
    if k == 0 {
    } else {
        assert(!is_break_char(s[0]));
        let d = s.drop_first();
        assert(forall|t: int| 0 <= t < k - 1 ==> d[t] == s[t + 1] && !is_break_char(d[t]));
        assert(k - 1 < d.len() ==> is_break_char(d[k - 1]));
        lemma_leading_word_len_run(d, k - 1);
    }
}

/// The words of a text: its maximal runs of non-break characters, in order.
pub open spec fn words_of(s: Seq<char>) -> Seq<Seq<char>>
    decreases s.len(),
    via words_of_decreases
{
    if s.len() == 0 {
        Seq::empty()
    } else if is_break_char(s[0]) {
        words_of(s.drop_first())
    } else {
        seq![s.take(leading_word_len(s))] + words_of(s.skip(leading_word_len(s)))
    }
}

#[via_fn]
proof fn words_of_decreases(s: Seq<char>) {
    lemma_leading_word_len_bounds(s);
}

proof fn lemma_words_of_unfold_break(s: Seq<char>)
    requires
        s.len() > 0,
        is_break_char(s[0]),
    ensures
        words_of(s) == words_of(s.drop_first()),
{
}

/// Extracts the words of `text`, in order.
fn split_words<'a>(text: &'a str) -> (r: Vec<&'a str>)
    requires
        text@.len() <= MAX_TEXT_LEN,
    ensures
        r.deep_view() == words_of(text@),
        forall|j: int| 0 <= j < r@.len() ==> (#[trigger] r@[j])@.len() <= text@.len(),
{
    let n = text.unicode_len();
    let mut r: Vec<&'a str> = Vec::new();
    let mut i: usize = 0;
    proof {
        assert(text@.skip(0) =~= text@);
        assert(r.deep_view() =~= Seq::<Seq<char>>::empty());
        assert(Seq::<Seq<char>>::empty() + words_of(text@) =~= words_of(text@));
    }
    while i < n
        invariant
            n == text@.len() <= MAX_TEXT_LEN,
            0 <= i <= n,
            r.deep_view() + words_of(text@.skip(i as int)) =~= words_of(text@),
            forall|j: int| 0 <= j < r@.len() ==> (#[trigger] r@[j])@.len() <= text@.len(),
        decreases n - i,
    {
        let c = text.get_char(i);
        if break_char(c) {
            proof {
                let s = text@.skip(i as int);
                assert(s[0] == text@[i as int]);
                lemma_words_of_unfold_break(s);
                assert(s.drop_first() =~= text@.skip(i + 1));
            }
            i = i + 1;
        } else {
            let mut j: usize = i + 1;
            while j < n && !break_char(text.get_char(j))
                invariant
                    n == text@.len(),
                    i < j <= n,
                    forall|t: int| i <= t < j ==> !is_break_char(#[trigger] text@[t]),
                decreases n - j,
            {
                j = j + 1;
            }
            let word = text.substring_char(i, j);
            let ghost old_dv = r.deep_view();
            r.push(word);
            proof {
                let s = text@.skip(i as int);
                assert(forall|t: int| 0 <= t < j - i ==> s[t] == text@[t + i as int]
                    && !is_break_char(s[t]));
                assert(j < n ==> is_break_char(s[j - i]));
                lemma_leading_word_len_run(s, j - i);
                assert(s.take(j - i) =~= text@.subrange(i as int, j as int));
                assert(s.skip(j - i) =~= text@.skip(j as int));
                assert(words_of(s) == seq![word@] + words_of(text@.skip(j as int)));
                assert(r.deep_view() =~= old_dv.push(word@));
                assert(old_dv.push(word@) + words_of(text@.skip(j as int)) =~= old_dv + (seq![
                    word@,
                ] + words_of(text@.skip(j as int))));
            }
            i = j;
        }
    }
    proof {
        assert(text@.skip(n as int) =~= Seq::<char>::empty());
        assert(words_of(Seq::<char>::empty()) =~= Seq::<Seq<char>>::empty());
        assert(r.deep_view() + Seq::<Seq<char>>::empty() =~= r.deep_view());
    }
    r
}

/// Total character count of a sequence of words.
pub open spec fn total_len(ws: Seq<Seq<char>>) -> nat
    decreases ws.len(),
{
    if ws.len() == 0 {
        0
    } else {
        ws[0].len() + total_len(ws.drop_first())
    }
}

proof fn lemma_total_len_concat(a: Seq<Seq<char>>, b: Seq<Seq<char>>)
    ensures
        total_len(a + b) == total_len(a) + total_len(b),
    decreases a.len(),
{
    if a.len() == 0 {
        assert(a + b =~= b);
    } else {
        assert((a + b)[0] == a[0]);
        assert((a + b).drop_first() =~= a.drop_first() + b);
        lemma_total_len_concat(a.drop_first(), b);
    }
}

/// The words of a text are no more numerous, and together no longer, than
/// the text itself.
proof fn lemma_words_of_total(s: Seq<char>)
    ensures
        total_len(words_of(s)) <= s.len(),
        words_of(s).len() <= s.len(),
    decreases s.len(),
{
    if s.len() == 0 {
    } else if is_break_char(s[0]) {
        lemma_words_of_total(s.drop_first());
    } else {
        let ll = leading_word_len(s);
        lemma_leading_word_len_bounds(s);
        lemma_words_of_total(s.skip(ll));
        lemma_total_len_concat(seq![s.take(ll)], words_of(s.skip(ll)));
        assert(total_len(seq![s.take(ll)]) == ll + total_len(Seq::<Seq<char>>::empty())) by {
            assert(seq![s.take(ll)].drop_first() =~= Seq::<Seq<char>>::empty());
        }
    }
}

/// One greedy pass over the remaining words: `cur` is the line being filled;
/// a word is appended after a single space while the line still fits the
/// width, otherwise the line is emitted and the word begins a new line after
/// the continuation indent.
pub open spec fn fill_lines(
    ws: Seq<Seq<char>>,
    width: int,
    cont: Seq<char>,
    cur: Seq<char>,
) -> Seq<Seq<char>>
    decreases ws.len(),
{
    if ws.len() == 0 {
        seq![cur]
    } else if str_width(cur) + char_cell_width(' ') + str_width(ws[0]) <= width {
        fill_lines(ws.drop_first(), width, cont, cur + seq![' '] + ws[0])
    } else {
        seq![cur] + fill_lines(ws.drop_first(), width, cont, cont + ws[0])
    }
}

/// The wrapped form of `text`: empty when the text has no words; otherwise
/// the greedy filling of its words, the first line begun with `init` and
/// every later line with `cont`.
pub open spec fn wrap_spec(
    text: Seq<char>,
    width: int,
    init: Seq<char>,
    cont: Seq<char>,
) -> Seq<Seq<char>> {
    let ws = words_of(text);
    if ws.len() == 0 {
        Seq::empty()
    } else {
        fill_lines(ws.drop_first(), width, cont, init + ws[0])
    }
}

/// Greedily wraps `text` to `width` display columns. The first produced line
/// is prefixed with `initial_indent` and every later line with
/// `continuation_indent`; a word too wide for the space after the indent
/// stands alone on its own line. Empty text produces no lines.
pub fn wrap(text: &str, width: usize, initial_indent: &str, continuation_indent: &str) -> (r: Vec<
    String,
>)
    requires
        text@.len() <= MAX_TEXT_LEN,
        initial_indent@.len() <= MAX_TEXT_LEN,
        continuation_indent@.len() <= MAX_TEXT_LEN,
    ensures
        r.deep_view() == wrap_spec(text@, width as int, initial_indent@, continuation_indent@),
{
    let ghost gws = words_of(text@);
    let ghost gwrap = wrap_spec(text@, width as int, initial_indent@, continuation_indent@);
    proof {
        lemma_words_of_total(text@);
    }
    let words = split_words(text);
    let mut r: Vec<String> = Vec::new();
    if words.len() == 0 {
        proof {
            assert(gws.len() == words.deep_view().len());
            assert(r.deep_view() =~= gwrap);
        }
        return r;
    }
    let space_w = cell_width(' ');
    let cont_w = display_width(continuation_indent);
    let iw = display_width(initial_indent);
    let first: &str = words[0];
    let w0 = display_width(first);
    let mut cur = String::from_str(initial_indent);
    cur.append(first);
    let mut cur_w: usize = iw + w0;
    proof {
        assert(words.deep_view()[0] == words@[0]@);
        lemma_str_width_concat(initial_indent@, gws[0]);
        lemma_total_len_concat(gws.take(1), gws.skip(1));
        assert(gws.take(1) + gws.skip(1) =~= gws);
        assert(total_len(gws.take(1)) == gws[0].len() + total_len(Seq::<Seq<char>>::empty())) by {
            assert(gws.take(1).drop_first() =~= Seq::<Seq<char>>::empty());
            assert(gws.take(1)[0] == gws[0]);
        }
        assert(gws.drop_first() =~= gws.skip(1));
        assert(cur@ == initial_indent@ + gws[0]);
        assert(r.deep_view() =~= Seq::<Seq<char>>::empty());
        assert(Seq::<Seq<char>>::empty() + fill_lines(
            gws.skip(1),
            width as int,
            continuation_indent@,
            cur@,
        ) =~= fill_lines(gws.skip(1), width as int, continuation_indent@, cur@));
    }
    let mut k: usize = 1;
    while k < words.len()
        invariant
            1 <= k <= gws.len(),
            words.deep_view() == gws,
            gws == words_of(text@),
            gws.len() == words@.len(),
            text@.len() <= MAX_TEXT_LEN,
            initial_indent@.len() <= MAX_TEXT_LEN,
            continuation_indent@.len() <= MAX_TEXT_LEN,
            total_len(gws) <= text@.len(),
            gws.len() <= text@.len(),
            forall|j: int| 0 <= j < words@.len() ==> (#[trigger] words@[j])@.len() <= text@.len(),
            space_w == char_cell_width(' '),
            space_w <= 3,
            cont_w == str_width(continuation_indent@),
            cont_w <= 3 * continuation_indent@.len(),
            cur_w == str_width(cur@),
            cur_w <= 3 * initial_indent@.len() + 3 * continuation_indent@.len() + 3 * total_len(
                gws.take(k as int),
            ) + 3 * k,
            r.deep_view() + fill_lines(
                gws.skip(k as int),
                width as int,
                continuation_indent@,
                cur@,
            ) =~= gwrap,
        decreases gws.len() - k,
    {
        let word: &str = words[k];
        let ww = display_width(word);
        let ghost s = gws.skip(k as int);
        proof {
            assert(words.deep_view()[k as int] == words@[k as int]@);
            assert(s[0] == gws[k as int]);
            assert(s.drop_first() =~= gws.skip(k + 1));
            lemma_total_len_concat(gws.take(k as int), gws.skip(k as int));
            assert(gws.take(k as int) + gws.skip(k as int) =~= gws);
            assert(gws.take(k + 1) =~= gws.take(k as int).push(gws[k as int]));
            lemma_total_len_concat(gws.take(k as int), seq![gws[k as int]]);
            assert(gws.take(k as int).push(gws[k as int]) =~= gws.take(k as int) + seq![
                gws[k as int],
            ]);
            assert(total_len(seq![gws[k as int]]) == gws[k as int].len() + total_len(
                Seq::<Seq<char>>::empty(),
            )) by {
                assert(seq![gws[k as int]].drop_first() =~= Seq::<Seq<char>>::empty());
            }
        }
        if cur_w + space_w + ww <= width {
            let ghost oldcur = cur@;
            cur.append(" ");
            cur.append(word);
            proof {
                reveal_strlit(" ");
                assert(" "@ =~= seq![' ']);
                lemma_str_width_concat(oldcur, seq![' ']);
                lemma_str_width_concat(oldcur + seq![' '], word@);
                assert(str_width(seq![' ']) == char_cell_width(' ')) by {
                    assert(seq![' '].drop_last() =~= Seq::<char>::empty());
                    assert(seq![' '].last() == ' ');
                    assert(str_width(Seq::<char>::empty()) == 0);
                    assert(str_width(seq![' ']) == str_width(seq![' '].drop_last())
                        + char_cell_width(seq![' '].last()));
                }
                assert(cur@ == oldcur + seq![' '] + gws[k as int]);
            }
            cur_w = cur_w + space_w + ww;
        } else {
            let ghost old_dv = r.deep_view();
            let ghost oldcur = cur@;
            r.push(cur);
            cur = String::from_str(continuation_indent);
            cur.append(word);
            proof {
                lemma_str_width_concat(continuation_indent@, word@);
                assert(r.deep_view() =~= old_dv.push(oldcur));
                assert(old_dv.push(oldcur) + fill_lines(
                    gws.skip(k + 1),
                    width as int,
                    continuation_indent@,
                    cur@,
                ) =~= old_dv + (seq![oldcur] + fill_lines(
                    gws.skip(k + 1),
                    width as int,
                    continuation_indent@,
                    cur@,
                )));
            }
            cur_w = cont_w + ww;
        }
        k = k + 1;
    }
    let ghost old_dv = r.deep_view();
    let ghost lastcur = cur@;
    r.push(cur);
    proof {
        assert(gws.skip(k as int) =~= Seq::<Seq<char>>::empty());
        assert(fill_lines(gws.skip(k as int), width as int, continuation_indent@, lastcur) == seq![
            lastcur,
        ]);
        assert(r.deep_view() =~= old_dv.push(lastcur));
        assert(old_dv.push(lastcur) =~= old_dv + seq![lastcur]);
        assert(r.deep_view() =~= gwrap);
    }
    r
}

/// Names joined with a comma and a space: "A, B, C".
pub open spec fn comma_join(names: Seq<Seq<char>>) -> Seq<char>
    decreases names.len(),
{
    if names.len() == 0 {
        Seq::empty()
    } else if names.len() == 1 {
        names[0]
    } else {
        comma_join(names.drop_last()) + ", "@ + names.last()
    }
}

/// The natural-language form of a non-empty list of names: one name stands
/// alone, two are joined with "and", and three or more are comma-separated
/// with a final ", and".
pub open spec fn join_names_spec(names: Seq<Seq<char>>) -> Seq<char> {
    if names.len() == 1 {
        names[0]
    } else if names.len() == 2 {
        names[0] + " and "@ + names[1]
    } else {
        comma_join(names.drop_last()) + ", and "@ + names.last()
    }
}

/// Renders a non-empty list of names as natural language. An empty list is
/// ruled out by precondition: there is nothing sensible to print for it.
pub fn format_list(s: &Vec<String>) -> (r: String)
    requires
        s@.len() >= 1,
    ensures
        r@ == join_names_spec(s.deep_view()),
{
    let ghost dv = s.deep_view();
    if s.len() == 1 {
        let r = s[0].clone();
        proof {
            assert(dv[0] == s@[0]@);
        }
        r
    } else if s.len() == 2 {
        let mut out = s[0].clone();
        out.append(" and ");
        out.append(s[1].as_str());
        proof {
            assert(dv[0] == s@[0]@ && dv[1] == s@[1]@);
        }
        out
    } else {
        let mut out = String::new();
        let n = s.len();
        let mut i: usize = 0;
        proof {
            assert(out@ =~= comma_join(dv.take(0)));
        }
        while i < n - 1
            invariant
                3 <= n == s@.len(),
                0 <= i <= n - 1,
                dv == s.deep_view(),
                out@ == comma_join(dv.take(i as int)),
            decreases n - 1 - i,
        {
            if i != 0 {
                out.append(", ");
            }
            out.append(s[i].as_str());
            proof {
                assert(dv[i as int] == s@[i as int]@);
                if i == 0 {
                    assert(dv.take(1).len() == 1);
                    assert(dv.take(1)[0] == dv[0]);
                    assert(out@ =~= comma_join(dv.take(1)));
                } else {
                    assert(dv.take(i + 1).drop_last() =~= dv.take(i as int));
                    assert(dv.take(i + 1).last() == dv[i as int]);
                }
            }
            i = i + 1;
        }
        out.append(", and ");
        out.append(s[n - 1].as_str());
        proof {
            assert(dv.take(n - 1) =~= dv.drop_last());
            assert(dv[n - 1] == s@[n - 1]@);
            assert(dv.last() == dv[n - 1]);
        }
        out
    }
}

proof fn lemma_comma_join_len(names: Seq<Seq<char>>, m: int)
    requires
        0 <= m,
        forall|i: int| 0 <= i < names.len() ==> (#[trigger] names[i]).len() <= m,
    ensures
        comma_join(names).len() <= names.len() * (m + 6),
    decreases names.len(),
{
    reveal_strlit(", ");
    if names.len() <= 1 {
    } else {
        let d = names.drop_last();
        assert(forall|i: int| 0 <= i < d.len() ==> (#[trigger] d[i]).len() <= m);
        lemma_comma_join_len(d, m);
        assert((names.len() - 1) * (m + 6) + (m + 6) == names.len() * (m + 6)) by (nonlinear_arith);
    }
}

/// The joined name list is no longer than the names themselves plus six
/// characters of separator for each.
pub proof fn lemma_join_names_len(names: Seq<Seq<char>>, m: int)
    requires
        names.len() >= 1,
        0 <= m,
        forall|i: int| 0 <= i < names.len() ==> (#[trigger] names[i]).len() <= m,
    ensures
        join_names_spec(names).len() <= names.len() * (m + 6),
{
    reveal_strlit(" and ");
    reveal_strlit(", and ");
    if names.len() == 1 {
    } else if names.len() == 2 {
    } else {
        let d = names.drop_last();
        assert(forall|i: int| 0 <= i < d.len() ==> (#[trigger] d[i]).len() <= m);
        lemma_comma_join_len(d, m);
        assert((names.len() - 1) * (m + 6) + (m + 6) == names.len() * (m + 6)) by (nonlinear_arith);
    }
}

/// A line starts with the given prefix.
pub open spec fn starts_with(l: Seq<char>, p: Seq<char>) -> bool {
    p.len() <= l.len() && l.take(p.len() as int) == p
}

proof fn lemma_concat_starts_with(a: Seq<char>, b: Seq<char>)
    ensures
        starts_with(a + b, a),
{
    assert((a + b).take(a.len() as int) =~= a);
}

proof fn lemma_starts_with_extend(l: Seq<char>, p: Seq<char>, b: Seq<char>)
    requires
        starts_with(l, p),
    ensures
        starts_with(l + b, p),
{
    assert((l + b).take(p.len() as int) =~= l.take(p.len() as int));
}

proof fn lemma_fill_prefix(
    ws: Seq<Seq<char>>,
    width: int,
    cont: Seq<char>,
    cur: Seq<char>,
    p: Seq<char>,
)
    requires
        starts_with(cur, p),
    ensures
        fill_lines(ws, width, cont, cur).len() >= 1,
        starts_with(fill_lines(ws, width, cont, cur)[0], p),
        forall|i: int|
            1 <= i < fill_lines(ws, width, cont, cur).len() ==> starts_with(
                #[trigger] fill_lines(ws, width, cont, cur)[i],
                cont,
            ),
    decreases ws.len(),
{
    if ws.len() == 0 {
    } else if str_width(cur) + char_cell_width(' ') + str_width(ws[0]) <= width {
        lemma_starts_with_extend(cur, p, seq![' ']);
        lemma_starts_with_extend(cur + seq![' '], p, ws[0]);
        lemma_fill_prefix(ws.drop_first(), width, cont, cur + seq![' '] + ws[0], p);
    } else {
        lemma_concat_starts_with(cont, ws[0]);
        lemma_fill_prefix(ws.drop_first(), width, cont, cont + ws[0], cont);
        let rest = fill_lines(ws.drop_first(), width, cont, cont + ws[0]);
        let whole = fill_lines(ws, width, cont, cur);
        assert(whole == seq![cur] + rest);
        assert forall|i: int| 1 <= i < whole.len() implies starts_with(
            #[trigger] whole[i],
            cont,
        ) by {
            assert(whole[i] == rest[i - 1]);
        }
    }
}

/// Law: wrapped output always begins with the initial indent, and every
/// later line begins with the continuation indent, so that with indents of
/// equal display width all content aligns in the same starting column.
pub proof fn lemma_wrap_indents(text: Seq<char>, width: int, init: Seq<char>, cont: Seq<char>)
    ensures
        wrap_spec(text, width, init, cont).len() >= 1 ==> starts_with(
            wrap_spec(text, width, init, cont)[0],
            init,
        ),
        forall|i: int|
            1 <= i < wrap_spec(text, width, init, cont).len() ==> starts_with(
                #[trigger] wrap_spec(text, width, init, cont)[i],
                cont,
            ),
{
    let ws = words_of(text);
    if ws.len() > 0 {
        lemma_concat_starts_with(init, ws[0]);
        lemma_fill_prefix(ws.drop_first(), width, cont, init + ws[0], init);
    }
}

/// Law: wrapping empty text produces no lines.
pub proof fn lemma_wrap_empty(width: int, init: Seq<char>, cont: Seq<char>)
    ensures
        wrap_spec(Seq::empty(), width, init, cont) == Seq::<Seq<char>>::empty(),
{
    assert(words_of(Seq::<char>::empty()).len() == 0);
}

/// A produced line is acceptable when it fits within the column width, or
/// when it consists of an indent followed by a single word (the oversized
/// word placed alone on its line).
pub open spec fn line_ok(
    l: Seq<char>,
    width: int,
    init: Seq<char>,
    cont: Seq<char>,
    ws: Seq<Seq<char>>,
) -> bool {
    str_width(l) <= width || exists|k: int|
        0 <= k < ws.len() && (l == init + ws[k] || l == cont + ws[k])
}

proof fn lemma_fill_width(
    ws: Seq<Seq<char>>,
    width: int,
    cont: Seq<char>,
    cur: Seq<char>,
    init: Seq<char>,
    allws: Seq<Seq<char>>,
)
    requires
        line_ok(cur, width, init, cont, allws),
        forall|j: int| 0 <= j < ws.len() ==> allws.contains(#[trigger] ws[j]),
    ensures
        forall|i: int|
            0 <= i < fill_lines(ws, width, cont, cur).len() ==> line_ok(
                #[trigger] fill_lines(ws, width, cont, cur)[i],
                width,
                init,
                cont,
                allws,
            ),
    decreases ws.len(),
{
    if ws.len() == 0 {
        assert(fill_lines(ws, width, cont, cur) == seq![cur]);
        assert(fill_lines(ws, width, cont, cur)[0] == cur);
    } else {
        assert(allws.contains(ws[0]));
        assert forall|j: int| 0 <= j < ws.drop_first().len() implies allws.contains(
            #[trigger] ws.drop_first()[j],
        ) by {
            assert(ws.drop_first()[j] == ws[j + 1]);
        }
        if str_width(cur) + char_cell_width(' ') + str_width(ws[0]) <= width {
            let newcur = cur + seq![' '] + ws[0];
            assert(str_width(newcur) <= width) by {
                lemma_str_width_concat(cur + seq![' '], ws[0]);
                lemma_str_width_concat(cur, seq![' ']);
                assert(str_width(seq![' ']) == char_cell_width(' ')) by {
                    assert(seq![' '].drop_last() =~= Seq::<char>::empty());
                    assert(str_width(Seq::<char>::empty()) == 0);
                    assert(seq![' '].last() == ' ');
                }
            }
            lemma_fill_width(ws.drop_first(), width, cont, newcur, init, allws);
            let rest = fill_lines(ws.drop_first(), width, cont, newcur);
            let whole = fill_lines(ws, width, cont, cur);
            assert(whole == rest);
            assert forall|i: int| 0 <= i < whole.len() implies line_ok(
                #[trigger] whole[i],
                width,
                init,
                cont,
                allws,
            ) by {
                assert(whole[i] == rest[i]);
            }
        } else {
            let newcur = cont + ws[0];
            let k = choose|k: int| 0 <= k < allws.len() && allws[k] == ws[0];
            assert(newcur == cont + allws[k]);
            lemma_fill_width(ws.drop_first(), width, cont, newcur, init, allws);
            let rest = fill_lines(ws.drop_first(), width, cont, newcur);
            let whole = fill_lines(ws, width, cont, cur);
            assert(whole == seq![cur] + rest);
            assert forall|i: int| 0 <= i < whole.len() implies line_ok(
                #[trigger] whole[i],
                width,
                init,
                cont,
                allws,
            ) by {
                if i == 0 {
                    assert(whole[0] == cur);
                } else {
                    assert(whole[i] == rest[i - 1]);
                }
            }
        }
    }
}

/// Law: every wrapped line's display width stays within the column width,
/// except a line that carries a single word after its indent — an oversized
/// word is placed alone rather than broken or truncated.
pub proof fn lemma_wrap_width(text: Seq<char>, width: int, init: Seq<char>, cont: Seq<char>)
    ensures
        forall|i: int|
            0 <= i < wrap_spec(text, width, init, cont).len() ==> line_ok(
                #[trigger] wrap_spec(text, width, init, cont)[i],
                width,
                init,
                cont,
                words_of(text),
            ),
{
    let ws = words_of(text);
    if ws.len() > 0 {
        assert(line_ok(init + ws[0], width, init, cont, ws)) by {
            assert(0 <= 0 < ws.len() && (init + ws[0] == init + ws[0] || init + ws[0] == cont
                + ws[0]));
        }
        assert forall|j: int| 0 <= j < ws.drop_first().len() implies ws.contains(
            #[trigger] ws.drop_first()[j],
        ) by {
            assert(ws.drop_first()[j] == ws[j + 1]);
        }
        lemma_fill_width(ws.drop_first(), width, cont, init + ws[0], init, ws);
    }
}

} // verus!
