//! The commit message style verifier: checks a message against the
//! policy and reports every violated rule.

use crate::casing::char_is_uppercase;
use crate::casing::is_upper_of;
use crate::policy::Config;
use crate::text::dec_of;
use crate::text::dec_string;
use crate::text::first_token;
use crate::text::join_strings;
use crate::text::join_with;
use crate::text::lines_of;
use crate::text::split_lines;
use crate::text::split_words;
use vstd::prelude::*;

verus! {

pub open spec fn empty_viol_text() -> Seq<char> {
    "Empty commit message"@
}

pub open spec fn length_viol_text() -> Seq<char> {
    "Subject line exceeds 50 characters"@
}

pub open spec fn verb_viol_text(keys: Seq<Seq<char>>) -> Seq<char> {
    "Subject must start with standard verb: "@ + join_with(keys, ", "@)
}

pub open spec fn period_viol_text() -> Seq<char> {
    "Subject line ends with a full stop"@
}

pub open spec fn capital_viol_text() -> Seq<char> {
    "Subject line not capitalised"@
}

pub open spec fn blank_viol_text() -> Seq<char> {
    "missing blank line between subject and body"@
}

pub open spec fn line_viol_text(n: nat) -> Seq<char> {
    "Line "@ + dec_of(n) + " exceeds 72 characters"@
}

/// The violations of the subject line, in checking order: length, verb,
/// trailing period, capitalisation.
pub open spec fn subject_viols(keys: Seq<Seq<char>>, subject: Seq<char>) -> Seq<Seq<char>> {
    (if subject.len() > 50 {
        seq![length_viol_text()]
    } else {
        Seq::<Seq<char>>::empty()
    }) + (if !keys.contains(first_token(subject)) {
        seq![verb_viol_text(keys)]
    } else {
        Seq::<Seq<char>>::empty()
    }) + (if subject.len() > 0 && subject.last() == '.' {
        seq![period_viol_text()]
    } else {
        Seq::<Seq<char>>::empty()
    }) + (if subject.len() > 0 && is_upper_of(subject[0]) {
        Seq::<Seq<char>>::empty()
    } else {
        seq![capital_viol_text()]
    })
}

/// The violations of body lines before (1-based) line `n`, from the
/// third line on: any non-empty line over 72 characters is named.
pub open spec fn body_viols(lines: Seq<Seq<char>>, n: int) -> Seq<Seq<char>>
    decreases n,
{
    if n <= 2 {
        Seq::<Seq<char>>::empty()
    } else {
        body_viols(lines, n - 1) + (if lines[n - 1].len() != 0 && lines[n - 1].len() > 72 {
            seq![line_viol_text(n as nat)]
        } else {
            Seq::<Seq<char>>::empty()
        })
    }
}

/// Every rule violation of `msg`, in checking order. `keys` is the
/// policy's accepted verb list.
pub open spec fn message_violations(keys: Seq<Seq<char>>, msg: Seq<char>) -> Seq<Seq<char>> {
    let lines = lines_of(msg);
    if lines.len() == 0 {
        seq![empty_viol_text()]
    } else {
        subject_viols(keys, lines[0]) + (if lines.len() >= 2 && lines[1].len() != 0 {
            seq![blank_viol_text()]
        } else {
            Seq::<Seq<char>>::empty()
        }) + body_viols(lines, lines.len() as int)
    }
}

pub struct CommitMessageVerifier {
    pub config: Config,
}

impl CommitMessageVerifier {
    pub fn new(config: Config) -> (v: Self)
        ensures
            v.config == config,
    {
        Self { config }
    }

    /// Checks `message` against every rule. The first component is true
    /// exactly when there are violations; the second lists them in
    /// checking order.
    pub fn verify_message(&self, message: &str) -> (r: (bool, Vec<String>))
        ensures
            r.1.deep_view() == message_violations(self.config.verb_keys(), message@),
            r.0 == (message_violations(self.config.verb_keys(), message@).len() > 0),
    {
        let ghost keys = self.config.verb_keys();
        let ghost lv = lines_of(message@);
        let lines = split_lines(message);
        if lines.len() == 0 {
            let mut errors: Vec<String> = Vec::new();
            errors.push(String::from_str("Empty commit message"));
            proof {
                assert(errors.deep_view() =~= seq![empty_viol_text()]);
            }
            return (true, errors);
        }
        let mut errors: Vec<String> = Vec::new();
        let subject: &String = &lines[0];
        let ghost subj = subject@;
        proof {
            assert(lines.deep_view()[0] == lines@[0]@);
            assert(subj == lv[0]);
        }

        // Rule: subject length
        let subj_len = subject.as_str().unicode_len();
        if subj_len > 50 {
            errors.push(String::from_str("Subject line exceeds 50 characters"));
        }
        let ghost v_len = (if subj.len() > 50 {
            seq![length_viol_text()]
        } else {
            Seq::<Seq<char>>::empty()
        });
        proof {
            assert(errors.deep_view() =~= v_len);
        }

        // Rule: subject starts with a standard verb
        let words = split_words(subject.as_str());
        let token: String = if words.len() > 0 {
            proof {
                assert(words.deep_view()[0] == words@[0]@);
            }
            words[0].clone()
        } else {
            String::new()
        };
        proof {
            assert(token@ == first_token(subj));
        }
        let mut found: bool = false;
        let mut vi: usize = 0;
        while vi < self.config.standard_verbs.len()
            invariant
                vi <= self.config.standard_verbs.len(),
                keys == self.config.verb_keys(),
                found ==> keys.contains(token@),
                !found ==> forall|t: int| 0 <= t < vi ==> keys[t] != token@,
            decreases self.config.standard_verbs.len() - vi,
        {
            proof {
                assert(keys[vi as int] == self.config.standard_verbs.deep_view()[vi as int].0);
                assert(self.config.standard_verbs.deep_view()[vi as int].0
                    == self.config.standard_verbs@[vi as int].0@);
            }
            if !found && self.config.standard_verbs[vi].0 == token {
                found = true;
            }
            vi += 1;
        }
        if !found {
            let mut keyvec: Vec<String> = Vec::new();
            let mut ki: usize = 0;
            while ki < self.config.standard_verbs.len()
                invariant
                    ki <= self.config.standard_verbs.len(),
                    keys == self.config.verb_keys(),
                    keyvec.deep_view() == keys.take(ki as int),
                decreases self.config.standard_verbs.len() - ki,
            {
                let ghost old_kv = keyvec.deep_view();
                keyvec.push(self.config.standard_verbs[ki].0.clone());
                proof {
                    assert(keys[ki as int] == self.config.standard_verbs@[ki as int].0@);
                    assert(keyvec.deep_view() =~= old_kv + seq![keys[ki as int]]);
                    assert(old_kv + seq![keys[ki as int]] =~= keys.take(ki + 1));
                }
                ki += 1;
            }
            proof {
                assert(keys.take(keys.len() as int) =~= keys);
            }
            let mut t = String::from_str("Subject must start with standard verb: ");
            let joined = join_strings(&keyvec, ", ");
            t.append(joined.as_str());
            errors.push(t);
        }
        let ghost v_verb = (if !keys.contains(first_token(subj)) {
            seq![verb_viol_text(keys)]
        } else {
            Seq::<Seq<char>>::empty()
        });
        proof {
            assert(errors.deep_view() =~= v_len + v_verb);
        }

        // Rule: subject does not end with a full stop
        if subj_len > 0 && subject.as_str().get_char(subj_len - 1) == '.' {
            errors.push(String::from_str("Subject line ends with a full stop"));
        }
        let ghost v_period = (if subj.len() > 0 && subj.last() == '.' {
            seq![period_viol_text()]
        } else {
            Seq::<Seq<char>>::empty()
        });
        proof {
            assert(errors.deep_view() =~= v_len + v_verb + v_period);
        }

        // Rule: subject starts with an uppercase character
        let capitalised: bool = if subj_len > 0 {
            char_is_uppercase(subject.as_str().get_char(0))
        } else {
            false
        };
        if !capitalised {
            errors.push(String::from_str("Subject line not capitalised"));
        }
        let ghost v_cap = (if subj.len() > 0 && is_upper_of(subj[0]) {
            Seq::<Seq<char>>::empty()
        } else {
            seq![capital_viol_text()]
        });
        proof {
            assert(errors.deep_view() =~= v_len + v_verb + v_period + v_cap);
            assert(v_len + v_verb + v_period + v_cap =~= subject_viols(keys, subj));
        }

        // Rule: blank line between subject and body
        if lines.len() >= 2 {
            proof {
                assert(lines.deep_view()[1] == lines@[1]@);
            }
            if !lines[1].as_str().is_empty() {
                errors.push(String::from_str("missing blank line between subject and body"));
            }
        }
        let ghost v_blank = (if lv.len() >= 2 && lv[1].len() != 0 {
            seq![blank_viol_text()]
        } else {
            Seq::<Seq<char>>::empty()
        });
        let ghost pre = subject_viols(keys, subj) + v_blank;
        proof {
            assert(errors.deep_view() =~= pre);
        }

        // Rule: body line width
        let mut li: usize = 2;
        proof {
            assert(body_viols(lv, 2).len() == 0);
            assert(errors.deep_view() =~= pre + body_viols(lv, 2));
        }
        while li < lines.len()
            invariant
                2 <= li,
                li <= lines.len() || li == 2,
                lines.deep_view() == lv,
                errors.deep_view() == pre + body_viols(lv, li as int),
            decreases lines.len() - li,
        {
            proof {
                assert(lines.deep_view()[li as int] == lines@[li as int]@);
            }
            let line_len = lines[li].as_str().unicode_len();
            let ghost old_e = errors.deep_view();
            if line_len != 0 && line_len > 72 {
                let mut t = String::from_str("Line ");
                let num = dec_string(li + 1);
                t.append(num.as_str());
                t.append(" exceeds 72 characters");
                proof {
                    assert(t@ =~= line_viol_text((li + 1) as nat));
                }
                errors.push(t);
                proof {
                    assert(errors.deep_view() =~= old_e + seq![line_viol_text((li + 1) as nat)]);
                }
            }
            proof {
                assert(errors.deep_view() =~= pre + body_viols(lv, li + 1));
            }
            li += 1;
        }
        proof {
            assert(errors.deep_view() =~= message_violations(keys, message@));
        }
        let has_errors = errors.len() > 0;
        (has_errors, errors)
    }
}

/// A message whose first line starts with a word outside the verb set
/// is always flagged with the standard-verb violation.
pub proof fn lemma_unknown_verb_flagged(keys: Seq<Seq<char>>, msg: Seq<char>)
    requires
        lines_of(msg).len() > 0,
        !keys.contains(first_token(lines_of(msg)[0])),
    ensures
        message_violations(keys, msg).contains(verb_viol_text(keys)),
{
    let lines = lines_of(msg);
    let subject = lines[0];
    let sv = subject_viols(keys, subject);
    let a_len: int = if subject.len() > 50 {
        1
    } else {
        0
    };
    assert(sv[a_len] == verb_viol_text(keys));
    let mv = message_violations(keys, msg);
    assert(mv[a_len] == sv[a_len]);
    assert(mv.contains(verb_viol_text(keys)));
}

/// A message with a non-empty second line is always flagged with the
/// blank-line violation, whatever else it holds.
pub proof fn lemma_blank_line_flagged(keys: Seq<Seq<char>>, msg: Seq<char>)
    requires
        lines_of(msg).len() >= 2,
        lines_of(msg)[1].len() != 0,
    ensures
        message_violations(keys, msg).contains(blank_viol_text()),
{
    let lines = lines_of(msg);
    let sv = subject_viols(keys, lines[0]);
    let mv = message_violations(keys, msg);
    assert(mv[sv.len() as int] == blank_viol_text());
    assert(mv.contains(blank_viol_text()));
}

/// The verb keys of the built-in policy.
pub open spec fn default_verb_keys() -> Seq<Seq<char>> {
    seq!["Add"@, "Cut"@, "Fix"@]
}

/// Every body-width violation text names a line, so it starts with
/// `Line`.
proof fn lemma_body_viols_first_char(lines: Seq<Seq<char>>, n: int)
    ensures
        forall|i: int|
            0 <= i < body_viols(lines, n).len() ==> (#[trigger] body_viols(lines, n)[i]).len() > 0
                && body_viols(lines, n)[i][0] == 'L',
    decreases n,
{
    reveal_strlit("Line ");
    if n <= 2 {
    } else {
        lemma_body_viols_first_char(lines, n - 1);
        let prev = body_viols(lines, n - 1);
        assert forall|i: int|
            0 <= i < body_viols(lines, n).len() implies (#[trigger] body_viols(lines, n)[i]).len()
            > 0 && body_viols(lines, n)[i][0] == 'L' by {
            if i < prev.len() {
                assert(body_viols(lines, n)[i] == prev[i]);
            } else {
                assert(body_viols(lines, n)[i] == line_viol_text(n as nat));
                assert(line_viol_text(n as nat)[0] == "Line "@[0]);
            }
        }
    }
}

/// Under the built-in policy, the length violation appears exactly
/// when the subject exceeds 50 characters: 50 passes the rule, 51
/// fails it.
pub proof fn lemma_subject_length_rule(msg: Seq<char>)
    requires
        lines_of(msg).len() > 0,
    ensures
        message_violations(default_verb_keys(), msg).contains(length_viol_text()) <==> lines_of(
            msg,
        )[0].len() > 50,
{
    let keys = default_verb_keys();
    let lines = lines_of(msg);
    let subject = lines[0];
    let sv = subject_viols(keys, subject);
    let mv = message_violations(keys, msg);
    if subject.len() > 50 {
        assert(sv[0] == length_viol_text());
        assert(mv[0] == sv[0]);
        assert(mv.contains(length_viol_text()));
    } else {
        // no other violation text equals the length text
        reveal_strlit("Subject line exceeds 50 characters");
        reveal_strlit("Subject must start with standard verb: ");
        reveal_strlit("Subject line ends with a full stop");
        reveal_strlit("Subject line not capitalised");
        reveal_strlit("missing blank line between subject and body");
        reveal_strlit("Add");
        reveal_strlit("Cut");
        reveal_strlit("Fix");
        reveal_strlit(", ");
        assert(keys.drop_last() =~= seq!["Add"@, "Cut"@]);
        assert(seq!["Add"@, "Cut"@].drop_last() =~= seq!["Add"@]);
        assert(join_with(seq!["Add"@], ", "@) == "Add"@);
        assert(join_with(seq!["Add"@, "Cut"@], ", "@) == join_with(seq!["Add"@], ", "@) + ", "@
            + "Cut"@);
        assert(join_with(keys, ", "@) == join_with(seq!["Add"@, "Cut"@], ", "@) + ", "@ + "Fix"@);
        assert(verb_viol_text(keys).len() != length_viol_text().len());
        assert(period_viol_text() != length_viol_text()) by {
            assert(period_viol_text()[14] != length_viol_text()[14]);
        }
        assert(capital_viol_text().len() != length_viol_text().len());
        assert(blank_viol_text()[0] != length_viol_text()[0]);
        lemma_body_viols_first_char(lines, lines.len() as int);
        assert(length_viol_text()[0] == 'S');
        assert forall|i: int| 0 <= i < mv.len() implies mv[i] != length_viol_text() by {
            let bv = body_viols(lines, lines.len() as int);
            if i < sv.len() {
                assert(mv[i] == sv[i]);
            } else if i < mv.len() - bv.len() {
                assert(mv[i] == blank_viol_text());
            } else {
                assert(mv[i] == bv[i - (mv.len() - bv.len())]);
            }
        }
        if mv.contains(length_viol_text()) {
            let i = choose|i: int| 0 <= i < mv.len() && mv[i] == length_viol_text();
            assert(false);
        }
    }
}

} // verus!
