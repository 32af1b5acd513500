//! Splitting a command line into words. Words are separated by white
//! space; a double quote switches quoting on or off, and inside quotes white
//! space belongs to the word. The quotes themselves are dropped.
use vstd::prelude::*;
use crate::text::{is_white_space, is_white_space_char, push_char};

verus! {

/// Where a scan stands: the words finished so far, the word being read,
/// and whether the scan is inside quotes.
pub type ScanState = (Seq<Seq<char>>, Seq<char>, bool);

/// The views of a sequence of strings.
pub open spec fn strings_view(v: Seq<String>) -> Seq<Seq<char>> {
    v.map_values(|w: String| w@)
}

/// The scan before any character.
pub open spec fn scan_start() -> ScanState {
    (Seq::empty(), Seq::empty(), false)
}

/// Reading one character.
pub open spec fn scan_step(st: ScanState, c: char) -> ScanState {
    if c == '"' {
        (st.0, st.1, !st.2)
    } else if is_white_space(c) && !st.2 {
        if st.1.len() > 0 {
            (st.0.push(st.1), Seq::empty(), st.2)
        } else {
            st
        }
    } else {
        (st.0, st.1.push(c), st.2)
    }
}

/// Reading the characters of `s` in order, from `st`.
pub open spec fn scan_from(st: ScanState, s: Seq<char>) -> ScanState
    decreases s.len(),
{
    if s.len() == 0 {
        st
    } else {
        scan_step(scan_from(st, s.drop_last()), s.last())
    }
}

/// The words of a command line: those the scan finished, and the last one
/// where the line does not end in white space.
pub open spec fn split_words(s: Seq<char>) -> Seq<Seq<char>> {
    let st = scan_from(scan_start(), s);
    if st.1.len() > 0 {
        st.0.push(st.1)
    } else {
        st.0
    }
}

/// The words of `input`, in order.
pub fn split_command_line(input: &str) -> (r: Vec<String>)
    ensures
        strings_view(r@) == split_words(input@),
{
    broadcast use vstd::string::group_string_axioms;

    let mut words: Vec<String> = Vec::new();
    let mut inside_quotes = false;
    let mut current_arg = String::new();
    let len = input.unicode_len();
    let mut i: usize = 0;
    while i < len
        invariant
            0 <= i <= len,
            len == input@.len(),
            (strings_view(words@), current_arg@, inside_quotes) == scan_from(
                scan_start(),
                input@.take(i as int),
            ),
        decreases len - i,
    {
        let c = input.get_char(i);
        let ghost before = (strings_view(words@), current_arg@, inside_quotes);
        assert(input@.take(i + 1).drop_last() =~= input@.take(i as int));
        assert(input@.take(i + 1).last() == c);
        if c == '"' {
            inside_quotes = !inside_quotes;
        } else if is_white_space_char(c) && !inside_quotes {
            if current_arg.unicode_len() > 0 {
                let mut finished = String::new();
                std::mem::swap(&mut finished, &mut current_arg);
                words.push(finished);
                assert(strings_view(words@) =~= before.0.push(before.1));
            }
        } else {
            push_char(&mut current_arg, c);
        }
        i = i + 1;
    }
    assert(input@.take(len as int) =~= input@);
    if current_arg.unicode_len() > 0 {
        let ghost before = strings_view(words@);
        words.push(current_arg);
        assert(strings_view(words@) =~= before.push(current_arg@));
    }
    words
}

/// Reading `p` then `q` is reading `p + q`.
pub proof fn lemma_scan_concat(st: ScanState, p: Seq<char>, q: Seq<char>)
    ensures
        scan_from(st, p + q) == scan_from(scan_from(st, p), q),
    decreases q.len(),
{
    if q.len() == 0 {
        assert(p + q =~= p);
    } else {
        lemma_scan_concat(st, p, q.drop_last());
        assert((p + q).drop_last() =~= p + q.drop_last());
        assert((p + q).last() == q.last());
    }
}

/// What a scan has finished or is reading never holds a quote, and each
/// finished word holds a character.
pub open spec fn scan_clean(st: ScanState) -> bool {
    &&& !st.1.contains('"')
    &&& forall|i: int|
        0 <= i < st.0.len() ==> (#[trigger] st.0[i]).len() > 0 && !st.0[i].contains('"')
}

proof fn lemma_scan_stays_clean(st: ScanState, s: Seq<char>)
    requires
        scan_clean(st),
    ensures
        scan_clean(scan_from(st, s)),
    decreases s.len(),
{
    if s.len() > 0 {
        lemma_scan_stays_clean(st, s.drop_last());
        let prev = scan_from(st, s.drop_last());
        let c = s.last();
        if c != '"' && !(is_white_space(c) && !prev.2) {
            assert forall|k: int| 0 <= k < prev.1.push(c).len() implies prev.1.push(c)[k]
                != '"' by {
                if k < prev.1.len() {
                    assert(prev.1.push(c)[k] == prev.1[k]);
                }
            }
        }
        if c != '"' && is_white_space(c) && !prev.2 && prev.1.len() > 0 {
            let next = prev.0.push(prev.1);
            assert forall|i: int| 0 <= i < next.len() implies (#[trigger] next[i]).len() > 0
                && !next[i].contains('"') by {
                if i < prev.0.len() {
                    assert(next[i] == prev.0[i]);
                }
            }
        }
    }
}

/// Every word of a command line holds at least one character, and none
/// holds a double quote.
pub proof fn lemma_words_are_clean(s: Seq<char>)
    ensures
        forall|i: int|
            0 <= i < split_words(s).len() ==> (#[trigger] split_words(s)[i]).len() > 0
                && !split_words(s)[i].contains('"'),
{
    lemma_scan_stays_clean(scan_start(), s);
    let st = scan_from(scan_start(), s);
    if st.1.len() > 0 {
        let w = st.0.push(st.1);
        assert forall|i: int| 0 <= i < w.len() implies (#[trigger] w[i]).len() > 0
            && !w[i].contains('"') by {
            if i < st.0.len() {
                assert(w[i] == st.0[i]);
            }
        }
    }
}

/// A word that can be written without quoting: at least one character,
/// no double quote and no white space.
pub open spec fn plain_word(w: Seq<char>) -> bool {
    &&& w.len() > 0
    &&& forall|i: int| 0 <= i < w.len() ==> (#[trigger] w[i]) != '"' && !is_white_space(w[i])
}

/// The words written one after another, a single space between two.
pub open spec fn join_words(ws: Seq<Seq<char>>) -> Seq<char>
    decreases ws.len(),
{
    if ws.len() == 0 {
        Seq::empty()
    } else if ws.len() == 1 {
        ws[0]
    } else {
        join_words(ws.drop_last()) + seq![' '] + ws.last()
    }
}

proof fn lemma_scan_one(st: ScanState, c: char)
    ensures
        scan_from(st, seq![c]) == scan_step(st, c),
{
    assert(seq![c].drop_last().len() == 0);
    assert(scan_from(st, seq![c].drop_last()) == st);
    assert(seq![c].last() == c);
}

proof fn lemma_scan_plain(done: Seq<Seq<char>>, cur: Seq<char>, w: Seq<char>)
    requires
        forall|i: int| 0 <= i < w.len() ==> (#[trigger] w[i]) != '"' && !is_white_space(w[i]),
    ensures
        scan_from((done, cur, false), w) == (done, cur + w, false),
    decreases w.len(),
{
    if w.len() == 0 {
        assert(cur + w =~= cur);
    } else {
        let p = w.drop_last();
        assert forall|i: int| 0 <= i < p.len() implies (#[trigger] p[i]) != '"' && !is_white_space(
            p[i],
        ) by {
            assert(p[i] == w[i]);
        }
        lemma_scan_plain(done, cur, p);
        assert((cur + p).push(w.last()) =~= cur + w);
    }
}

proof fn lemma_scan_joined(ws: Seq<Seq<char>>)
    requires
        ws.len() > 0,
        forall|i: int| 0 <= i < ws.len() ==> plain_word(#[trigger] ws[i]),
    ensures
        scan_from(scan_start(), join_words(ws)) == (ws.drop_last(), ws.last(), false),
    decreases ws.len(),
{
    if ws.len() == 1 {
        assert(plain_word(ws[0]));
        lemma_scan_plain(Seq::empty(), Seq::empty(), ws[0]);
        assert(Seq::<char>::empty() + ws[0] =~= ws[0]);
        assert(ws.drop_last() =~= Seq::<Seq<char>>::empty());
    } else {
        let front = ws.drop_last();
        assert forall|i: int| 0 <= i < front.len() implies plain_word(#[trigger] front[i]) by {
            assert(front[i] == ws[i]);
        }
        lemma_scan_joined(front);
        let head = join_words(front);
        assert(plain_word(ws.last()));
        lemma_scan_concat(scan_start(), head + seq![' '], ws.last());
        lemma_scan_concat(scan_start(), head, seq![' ']);
        let after_space = scan_from((front.drop_last(), front.last(), false), seq![' ']);
        lemma_scan_one((front.drop_last(), front.last(), false), ' ');
        assert(is_white_space(' '));
        assert(plain_word(front.last()));
        assert(after_space == (front.drop_last().push(front.last()), Seq::<char>::empty(), false));
        assert(front.drop_last().push(front.last()) =~= front);
        lemma_scan_plain(front, Seq::empty(), ws.last());
        assert(Seq::<char>::empty() + ws.last() =~= ws.last());
    }
}

/// Splitting undoes joining: plain words joined with single spaces split
/// back into the same words.
pub proof fn lemma_split_undoes_join(ws: Seq<Seq<char>>)
    requires
        forall|i: int| 0 <= i < ws.len() ==> plain_word(#[trigger] ws[i]),
    ensures
        split_words(join_words(ws)) == ws,
{
    if ws.len() > 0 {
        lemma_scan_joined(ws);
        assert(plain_word(ws.last()));
        assert(ws.drop_last().push(ws.last()) =~= ws);
    } else {
        assert(split_words(join_words(ws)) =~= ws);
    }
}

/// A quoted stretch is one word: quoting a non-empty text without quotes
/// gives that text as the only word, white space and all.
pub proof fn lemma_quoted_is_one_word(w: Seq<char>)
    requires
        w.len() > 0,
        !w.contains('"'),
    ensures
        split_words(seq!['"'] + w + seq!['"']) == seq![w],
{
    let open_quote = scan_from(scan_start(), seq!['"']);
    lemma_scan_one(scan_start(), '"');
    assert(open_quote == (Seq::<Seq<char>>::empty(), Seq::<char>::empty(), true));
    lemma_scan_quoted(w.len() as int, w);
    assert(w.take(w.len() as int) =~= w);
    lemma_scan_concat(scan_start(), seq!['"'], w);
    lemma_scan_concat(scan_start(), seq!['"'] + w, seq!['"']);
    lemma_scan_one((Seq::<Seq<char>>::empty(), w, true), '"');
    assert(Seq::<Seq<char>>::empty().push(w) =~= seq![w]);
}

proof fn lemma_scan_quoted(n: int, w: Seq<char>)
    requires
        0 <= n <= w.len(),
        !w.contains('"'),
    ensures
        scan_from((Seq::empty(), Seq::empty(), true), w.take(n)) == (
            Seq::<Seq<char>>::empty(),
            w.take(n),
            true,
        ),
    decreases n,
{
    if n > 0 {
        lemma_scan_quoted(n - 1, w);
        assert(w.take(n).drop_last() =~= w.take(n - 1));
        assert(w.take(n).last() == w[n - 1]);
        assert(w.take(n - 1).push(w[n - 1]) =~= w.take(n));
    } else {
        assert(w.take(0) =~= Seq::<char>::empty());
    }
    if n == w.len() {
        assert(w.take(n) =~= w);
    }
}

} // verus!
