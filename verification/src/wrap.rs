//! Greedy word-wrapping of body text to 72 columns: words are packed
//! into lines, never split, with single spaces between them; a word
//! longer than the width stands alone on its own line.

use crate::text::first_ws;
use crate::text::is_ws_char;
use crate::text::join_strings;
use crate::text::join_with;
use crate::text::lemma_first_ws_bounds;
use crate::text::lemma_first_ws_val;
use crate::text::split_words;
use crate::text::words_of;
use vstd::prelude::*;

verus! {

/// The width a line of a group of words has: the words joined by
/// single spaces.
pub open spec fn line_width(g: Seq<Seq<char>>) -> int {
    join_with(g, " "@).len() as int
}

/// Greedy packing of `ws` into lines of width at most 72, continuing a
/// line already holding `cur`: each word goes onto the current line if
/// it fits with a space, else it starts a new line.
pub open spec fn pack_rec(ws: Seq<Seq<char>>, cur: Seq<Seq<char>>) -> Seq<Seq<Seq<char>>>
    decreases ws.len(),
{
    if ws.len() == 0 {
        if cur.len() == 0 {
            Seq::empty()
        } else {
            seq![cur]
        }
    } else if cur.len() == 0 {
        pack_rec(ws.skip(1), seq![ws[0]])
    } else if line_width(cur) + 1 + ws[0].len() <= 72 {
        pack_rec(ws.skip(1), cur.push(ws[0]))
    } else {
        seq![cur] + pack_rec(ws.skip(1), seq![ws[0]])
    }
}

pub open spec fn pack_words(ws: Seq<Seq<char>>) -> Seq<Seq<Seq<char>>> {
    pack_rec(ws, Seq::empty())
}

/// The wrapping of a word list: each packed line's words joined with
/// spaces, the lines joined with newlines.
pub open spec fn wrap_words(ws: Seq<Seq<char>>) -> Seq<char> {
    join_with(pack_words(ws).map_values(|g: Seq<Seq<char>>| join_with(g, " "@)), "\n"@)
}

/// The wrapping of a text: its words, greedily packed to 72 columns.
pub open spec fn wrap_of(s: Seq<char>) -> Seq<char> {
    wrap_words(words_of(s))
}

/// Wraps `text` to 72 columns by greedy word-wrap.
pub fn wrap_text(text: &str) -> (r: String)
    ensures
        r@ == wrap_of(text@),
{
    let ghost wv = words_of(text@);
    let words = split_words(text);
    let mut lines_out: Vec<String> = Vec::new();
    let mut cur = String::new();
    let mut have_cur: bool = false;
    let ghost mut cur_words: Seq<Seq<char>> = Seq::empty();
    let ghost mut done: Seq<Seq<Seq<char>>> = Seq::empty();
    let mut wi: usize = 0;
    proof {
        assert(wv.skip(0) == wv);
        assert(lines_out.deep_view() =~= done.map_values(
            |g: Seq<Seq<char>>| join_with(g, " "@),
        ));
    }
    while wi < words.len()
        invariant
            wi <= words.len(),
            words.deep_view() == wv,
            lines_out.deep_view() == done.map_values(|g: Seq<Seq<char>>| join_with(g, " "@)),
            cur@ == join_with(cur_words, " "@),
            have_cur == (cur_words.len() > 0),
            pack_words(wv) == done + pack_rec(wv.skip(wi as int), cur_words),
        decreases words.len() - wi,
    {
        proof {
            assert(words.deep_view()[wi as int] == words@[wi as int]@);
        }
        let w: &String = &words[wi];
        let ghost rem = wv.skip(wi as int);
        proof {
            assert(rem[0] == wv[wi as int]);
            assert(rem.skip(1) =~= wv.skip(wi + 1));
        }
        if !have_cur {
            cur = w.clone();
            have_cur = true;
            proof {
                cur_words = seq![wv[wi as int]];
                assert(join_with(cur_words, " "@) == wv[wi as int]);
                assert(pack_rec(rem, Seq::empty()) == pack_rec(rem.skip(1), seq![rem[0]]));
            }
        } else {
            let cur_n = cur.as_str().unicode_len();
            let w_n = w.as_str().unicode_len();
            if cur_n < 72 && w_n <= 71 - cur_n {
                // the word fits on the current line
                let ghost old_cw = cur_words;
                cur.append(" ");
                cur.append(w.as_str());
                proof {
                    cur_words = cur_words.push(wv[wi as int]);
                    assert(cur_words.drop_last() =~= old_cw);
                    assert(cur_words.last() == wv[wi as int]);
                    assert(join_with(cur_words, " "@) == join_with(old_cw, " "@) + " "@ + wv[
                        wi as int
                    ]);
                    assert(line_width(old_cw) + 1 + rem[0].len() <= 72);
                    assert(pack_rec(rem, old_cw) == pack_rec(rem.skip(1), cur_words));
                }
            } else {
                // start a new line with this word
                let ghost old_cw = cur_words;
                let ghost old_done = done;
                let ghost old_lines = lines_out.deep_view();
                lines_out.push(cur);
                cur = w.clone();
                proof {
                    done = done.push(old_cw);
                    cur_words = seq![wv[wi as int]];
                    assert(lines_out.deep_view() =~= old_lines + seq![
                        join_with(old_cw, " "@),
                    ]);
                    assert(lines_out.deep_view() =~= done.map_values(
                        |g: Seq<Seq<char>>| join_with(g, " "@),
                    ));
                    assert(join_with(cur_words, " "@) == wv[wi as int]);
                    assert(!(line_width(old_cw) + 1 + rem[0].len() <= 72));
                    assert(pack_rec(rem, old_cw) == seq![old_cw] + pack_rec(
                        rem.skip(1),
                        cur_words,
                    ));
                    assert(old_done + (seq![old_cw] + pack_rec(rem.skip(1), cur_words)) =~= done
                        + pack_rec(rem.skip(1), cur_words));
                }
            }
        }
        wi += 1;
    }
    proof {
        assert(wv.skip(wv.len() as int).len() == 0);
    }
    if have_cur {
        let ghost old_done = done;
        let ghost old_lines = lines_out.deep_view();
        lines_out.push(cur);
        proof {
            done = done.push(cur_words);
            assert(pack_rec(wv.skip(wv.len() as int), cur_words) == seq![cur_words]);
            assert(lines_out.deep_view() =~= old_lines + seq![join_with(cur_words, " "@)]);
            assert(lines_out.deep_view() =~= done.map_values(
                |g: Seq<Seq<char>>| join_with(g, " "@),
            ));
            assert(old_done + seq![cur_words] =~= done);
            assert(pack_words(wv) == done);
        }
    } else {
        proof {
            assert(pack_rec(wv.skip(wv.len() as int), cur_words).len() == 0);
            assert(pack_words(wv) =~= done);
        }
    }
    let r = join_strings(&lines_out, "\n");
    proof {
        assert(r@ == wrap_of(text@));
    }
    r
}

/// A word as the wrapper sees it: nonempty, no whitespace inside.
pub open spec fn wf_word(w: Seq<char>) -> bool {
    w.len() > 0 && forall|j: int| 0 <= j < w.len() ==> !is_ws_char(w[j])
}

pub open spec fn wf_words(ws: Seq<Seq<char>>) -> bool {
    forall|i: int| 0 <= i < ws.len() ==> wf_word(#[trigger] ws[i])
}

pub open spec fn wf_groups(gs: Seq<Seq<Seq<char>>>) -> bool {
    forall|i: int| 0 <= i < gs.len() ==> (#[trigger] gs[i]).len() > 0 && wf_words(gs[i])
}

/// The words of any text are nonempty and hold no whitespace.
pub proof fn lemma_words_wf(s: Seq<char>)
    ensures
        wf_words(words_of(s)),
    decreases s.len(),
{
    if s.len() == 0 {
    } else if is_ws_char(s[0]) {
        lemma_words_wf(s.skip(1));
    } else {
        lemma_first_ws_bounds(s);
        let k = first_ws(s);
        lemma_words_wf(s.skip(k));
        assert(wf_word(s.take(k))) by {
            assert forall|j: int| 0 <= j < k implies !is_ws_char(s.take(k)[j]) by {
                assert(s.take(k)[j] == s[j]);
            }
        }
        assert forall|i: int| 0 <= i < words_of(s).len() implies wf_word(
            #[trigger] words_of(s)[i],
        ) by {
            if i > 0 {
                assert(words_of(s)[i] == words_of(s.skip(k))[i - 1]);
            }
        }
    }
}

/// Splitting a text at a whitespace character splits its word list.
pub proof fn lemma_words_split(x: Seq<char>, y: Seq<char>, c: char)
    requires
        is_ws_char(c),
    ensures
        words_of(x + seq![c] + y) == words_of(x) + words_of(y),
    decreases x.len(),
{
    let whole = x + seq![c] + y;
    if x.len() == 0 {
        assert(whole[0] == c);
        assert(whole.skip(1) =~= y);
        assert(words_of(whole) == words_of(y));
        assert(words_of(x).len() == 0);
        assert(words_of(x) + words_of(y) =~= words_of(y));
    } else if is_ws_char(x[0]) {
        assert(whole[0] == x[0]);
        assert(whole.skip(1) =~= x.skip(1) + seq![c] + y);
        lemma_words_split(x.skip(1), y, c);
        assert(words_of(x) == words_of(x.skip(1)));
    } else {
        assert(whole[0] == x[0]);
        lemma_first_ws_bounds(x);
        let k = first_ws(x);
        assert forall|j: int| 0 <= j < k implies !is_ws_char(whole[j]) by {
            assert(whole[j] == x[j]);
        }
        if k < x.len() {
            assert(whole[k] == x[k]);
        } else {
            assert(whole[k] == c);
        }
        lemma_first_ws_val(whole, k);
        assert(whole.take(k) =~= x.take(k));
        assert(whole.skip(k) =~= x.skip(k) + seq![c] + y);
        lemma_words_split(x.skip(k), y, c);
        assert(words_of(whole) == seq![whole.take(k)] + words_of(whole.skip(k)));
        assert(words_of(x) == seq![x.take(k)] + words_of(x.skip(k)));
        assert(seq![x.take(k)] + (words_of(x.skip(k)) + words_of(y)) =~= (seq![x.take(k)]
            + words_of(x.skip(k))) + words_of(y));
    }
}

/// A single well-formed word is its own word list.
pub proof fn lemma_words_single(w: Seq<char>)
    requires
        wf_word(w),
    ensures
        words_of(w) == seq![w],
{
    lemma_first_ws_val(w, w.len() as int);
    assert(words_of(w) == seq![w.take(w.len() as int)] + words_of(w.skip(w.len() as int)));
    assert(w.take(w.len() as int) =~= w);
    assert(words_of(w.skip(w.len() as int)).len() == 0);
    assert(words_of(w) =~= seq![w]);
}

/// Words joined by single spaces have exactly those words.
pub proof fn lemma_words_join_space(g: Seq<Seq<char>>)
    requires
        g.len() > 0,
        wf_words(g),
    ensures
        words_of(join_with(g, " "@)) == g,
    decreases g.len(),
{
    reveal_strlit(" ");
    assert(" "@ =~= seq![' ']);
    if g.len() == 1 {
        lemma_words_single(g[0]);
        assert(seq![g[0]] =~= g);
    } else {
        let d = g.drop_last();
        assert(wf_words(d)) by {
            assert forall|i: int| 0 <= i < d.len() implies wf_word(#[trigger] d[i]) by {
                assert(d[i] == g[i]);
            }
        }
        lemma_words_join_space(d);
        assert(join_with(g, " "@) == join_with(d, " "@) + " "@ + g.last());
        assert(join_with(d, " "@) + " "@ + g.last() =~= join_with(d, " "@) + seq![' ']
            + g.last());
        lemma_words_split(join_with(d, " "@), g.last(), ' ');
        lemma_words_single(g.last());
        assert(words_of(join_with(g, " "@)) == d + seq![g.last()]);
        assert(d + seq![g.last()] =~= g);
    }
}

/// The packed lines, flattened back to the word list.
pub open spec fn flat_groups(gs: Seq<Seq<Seq<char>>>) -> Seq<Seq<char>>
    decreases gs.len(),
{
    if gs.len() == 0 {
        Seq::empty()
    } else {
        flat_groups(gs.drop_last()) + gs.last()
    }
}

pub proof fn lemma_flat_front(g: Seq<Seq<char>>, rest: Seq<Seq<Seq<char>>>)
    ensures
        flat_groups(seq![g] + rest) == g + flat_groups(rest),
    decreases rest.len(),
{
    let whole = seq![g] + rest;
    if rest.len() == 0 {
        assert(whole.len() == 1);
        assert(whole.drop_last() =~= Seq::<Seq<Seq<char>>>::empty());
        assert(whole.last() == g);
        assert(flat_groups(Seq::<Seq<Seq<char>>>::empty()) == Seq::<Seq<char>>::empty());
        assert(flat_groups(whole) == flat_groups(whole.drop_last()) + whole.last());
        assert(flat_groups(whole) =~= g + flat_groups(rest));
    } else {
        assert(whole.drop_last() =~= seq![g] + rest.drop_last());
        assert(whole.last() == rest.last());
        lemma_flat_front(g, rest.drop_last());
        assert((g + flat_groups(rest.drop_last())) + rest.last() =~= g + (flat_groups(
            rest.drop_last(),
        ) + rest.last()));
    }
}

/// Greedy packing keeps every word, in order.
pub proof fn lemma_pack_flat(ws: Seq<Seq<char>>, cur: Seq<Seq<char>>)
    ensures
        flat_groups(pack_rec(ws, cur)) == cur + ws,
    decreases ws.len(),
{
    if ws.len() == 0 {
        if cur.len() == 0 {
            assert(flat_groups(pack_rec(ws, cur)) =~= cur + ws);
        } else {
            assert(seq![cur].drop_last() =~= Seq::<Seq<Seq<char>>>::empty());
            assert(flat_groups(Seq::<Seq<Seq<char>>>::empty()) == Seq::<Seq<char>>::empty());
            assert(flat_groups(seq![cur]) == flat_groups(seq![cur].drop_last())
                + seq![cur].last());
            assert(flat_groups(seq![cur]) =~= cur + ws);
        }
    } else if cur.len() == 0 {
        lemma_pack_flat(ws.skip(1), seq![ws[0]]);
        assert(seq![ws[0]] + ws.skip(1) =~= cur + ws);
    } else if line_width(cur) + 1 + ws[0].len() <= 72 {
        lemma_pack_flat(ws.skip(1), cur.push(ws[0]));
        assert(cur.push(ws[0]) + ws.skip(1) =~= cur + ws);
    } else {
        lemma_pack_flat(ws.skip(1), seq![ws[0]]);
        lemma_flat_front(cur, pack_rec(ws.skip(1), seq![ws[0]]));
        assert(cur + (seq![ws[0]] + ws.skip(1)) =~= cur + ws);
    }
}

/// Greedy packing yields only nonempty lines of well-formed words.
pub proof fn lemma_pack_wf(ws: Seq<Seq<char>>, cur: Seq<Seq<char>>)
    requires
        wf_words(ws),
        wf_words(cur),
    ensures
        wf_groups(pack_rec(ws, cur)),
    decreases ws.len(),
{
    if ws.len() == 0 {
    } else {
        assert(wf_words(ws.skip(1))) by {
            assert forall|i: int| 0 <= i < ws.skip(1).len() implies wf_word(
                #[trigger] ws.skip(1)[i],
            ) by {
                assert(ws.skip(1)[i] == ws[i + 1]);
            }
        }
        assert(wf_word(ws[0]));
        assert(wf_words(seq![ws[0]]));
        if cur.len() == 0 {
            lemma_pack_wf(ws.skip(1), seq![ws[0]]);
        } else if line_width(cur) + 1 + ws[0].len() <= 72 {
            assert(wf_words(cur.push(ws[0]))) by {
                assert forall|i: int| 0 <= i < cur.push(ws[0]).len() implies wf_word(
                    #[trigger] cur.push(ws[0])[i],
                ) by {
                    if i < cur.len() {
                        assert(cur.push(ws[0])[i] == cur[i]);
                    } else {
                        assert(cur.push(ws[0])[i] == ws[0]);
                    }
                }
            }
            lemma_pack_wf(ws.skip(1), cur.push(ws[0]));
        } else {
            lemma_pack_wf(ws.skip(1), seq![ws[0]]);
            let rest = pack_rec(ws.skip(1), seq![ws[0]]);
            assert forall|i: int| 0 <= i < (seq![cur] + rest).len() implies (#[trigger] (seq![cur]
                + rest)[i]).len() > 0 && wf_words((seq![cur] + rest)[i]) by {
                if i == 0 {
                    assert((seq![cur] + rest)[0] == cur);
                } else {
                    assert((seq![cur] + rest)[i] == rest[i - 1]);
                }
            }
        }
    }
}

/// The packed lines joined with newlines have exactly the packed
/// words.
pub proof fn lemma_words_join_lines(gs: Seq<Seq<Seq<char>>>)
    requires
        wf_groups(gs),
    ensures
        words_of(join_with(gs.map_values(|g: Seq<Seq<char>>| join_with(g, " "@)), "\n"@))
            == flat_groups(gs),
    decreases gs.len(),
{
    let m = gs.map_values(|g: Seq<Seq<char>>| join_with(g, " "@));
    if gs.len() == 0 {
        assert(m.len() == 0);
        assert(join_with(m, "\n"@).len() == 0);
        assert(words_of(join_with(m, "\n"@)) =~= flat_groups(gs));
    } else if gs.len() == 1 {
        assert(m[0] == join_with(gs[0], " "@));
        assert(join_with(m, "\n"@) == m[0]);
        lemma_words_join_space(gs[0]);
        assert(gs.drop_last() =~= Seq::<Seq<Seq<char>>>::empty());
        assert(flat_groups(Seq::<Seq<Seq<char>>>::empty()) == Seq::<Seq<char>>::empty());
        assert(flat_groups(gs) == flat_groups(gs.drop_last()) + gs.last());
        assert(flat_groups(gs) =~= gs[0]);
        assert(words_of(join_with(m, "\n"@)) =~= flat_groups(gs));
    } else {
        let d = gs.drop_last();
        assert(wf_groups(d)) by {
            assert forall|i: int| 0 <= i < d.len() implies (#[trigger] d[i]).len() > 0
                && wf_words(d[i]) by {
                assert(d[i] == gs[i]);
            }
        }
        lemma_words_join_lines(d);
        assert(m.drop_last() =~= d.map_values(|g: Seq<Seq<char>>| join_with(g, " "@)));
        assert(m.last() == join_with(gs.last(), " "@));
        assert(join_with(m, "\n"@) == join_with(m.drop_last(), "\n"@) + "\n"@ + m.last());
        reveal_strlit("\n");
        assert("\n"@ =~= seq!['\n']);
        assert(join_with(m.drop_last(), "\n"@) + "\n"@ + m.last() =~= join_with(
            m.drop_last(),
            "\n"@,
        ) + seq!['\n'] + m.last());
        lemma_words_split(join_with(m.drop_last(), "\n"@), m.last(), '\n');
        lemma_words_join_space(gs.last());
        assert(words_of(join_with(m, "\n"@)) == flat_groups(d) + gs.last());
    }
}

/// Wrapping preserves the words: the wrapped text has exactly the
/// words of the original, in order.
pub proof fn lemma_wrap_words(s: Seq<char>)
    ensures
        words_of(wrap_of(s)) == words_of(s),
{
    let ws = words_of(s);
    lemma_words_wf(s);
    assert(wf_words(Seq::<Seq<char>>::empty()));
    lemma_pack_wf(ws, Seq::empty());
    lemma_words_join_lines(pack_words(ws));
    lemma_pack_flat(ws, Seq::empty());
    assert(Seq::<Seq<char>>::empty() + ws =~= ws);
}

/// Wrapping is idempotent: a wrapped text wraps to itself, since its
/// line breaks and spaces collapse back to the same words.
pub proof fn lemma_wrap_idempotent(s: Seq<char>)
    ensures
        wrap_of(wrap_of(s)) == wrap_of(s),
{
    lemma_wrap_words(s);
}

} // verus!
