//! The commit message generator: a subject line from the analyzed
//! changes, then the templated body sections with the per-file changes
//! and flagged breaking changes, wrapped to 72 columns.

use crate::analyzer::lowered_join;
use crate::analyzer::select_verb;
use crate::analyzer::GitChanges;
use crate::analyzer::GitDiffAnalyzer;
use crate::casing::lower_of;
use crate::casing::lowercase;
use crate::policy::Config;
use crate::text::join_strings;
use crate::text::join_with;
use crate::text::trim_of;
use crate::text::trim_str;
use crate::wrap::wrap_of;
use crate::wrap::wrap_text;
use vstd::prelude::*;

verus! {

/// The first added line of the first file that has one.
pub open spec fn first_desc(files: Seq<(Seq<char>, Seq<Seq<char>>)>) -> Option<Seq<char>>
    decreases files.len(),
{
    if files.len() == 0 {
        Option::None
    } else if files[0].1.len() > 0 {
        Option::Some(files[0].1[0])
    } else {
        first_desc(files.skip(1))
    }
}

/// The subject line: the selected verb, a space, and the first change
/// trimmed and lowercased (`codebase` if there is none); over 50
/// characters it is cut to 47 and ellipsized.
pub open spec fn subject_of(
    inds: Seq<(Seq<char>, Seq<Seq<char>>)>,
    mapping: Seq<(Seq<char>, Seq<char>)>,
    files: Seq<(Seq<char>, Seq<Seq<char>>)>,
) -> Seq<char> {
    let verb = select_verb(inds, mapping, lowered_join(files));
    let desc = match first_desc(files) {
        Option::Some(c) => lower_of(trim_of(c)),
        Option::None => "codebase"@,
    };
    let subj = verb + " "@ + desc;
    if subj.len() > 50 {
        subj.take(47) + "..."@
    } else {
        subj
    }
}

/// The listed changes of one file, each wrapped and bulleted.
pub open spec fn changes_lines(cs: Seq<Seq<char>>) -> Seq<char>
    decreases cs.len(),
{
    if cs.len() == 0 {
        Seq::empty()
    } else {
        changes_lines(cs.drop_last()) + "  - "@ + wrap_of(cs.last()) + "\n"@
    }
}

/// At most the first three changes are listed.
pub open spec fn capped(cs: Seq<Seq<char>>) -> Seq<Seq<char>> {
    if cs.len() > 3 {
        cs.take(3)
    } else {
        cs
    }
}

pub open spec fn file_block(f: (Seq<char>, Seq<Seq<char>>)) -> Seq<char> {
    "* In "@ + f.0 + ":\n"@ + changes_lines(capped(f.1))
}

pub open spec fn files_text(files: Seq<(Seq<char>, Seq<Seq<char>>)>) -> Seq<char>
    decreases files.len(),
{
    if files.len() == 0 {
        Seq::empty()
    } else {
        files_text(files.drop_last()) + file_block(files.last())
    }
}

pub open spec fn breaking_lines(bs: Seq<Seq<char>>) -> Seq<char>
    decreases bs.len(),
{
    if bs.len() == 0 {
        Seq::empty()
    } else {
        breaking_lines(bs.drop_last()) + wrap_of(bs.last()) + "\n"@
    }
}

/// The body sections in order: references, changes overview, breaking
/// changes (only if any were flagged), testing, dependencies.
pub open spec fn sections_of(
    cfg: Config,
    files: Seq<(Seq<char>, Seq<Seq<char>>)>,
    breaking: Seq<Seq<char>>,
) -> Seq<Seq<char>> {
    let changes_sec = cfg.message_template.changes_section@ + "\n\n"@ + files_text(files);
    let base = seq![cfg.message_template.references_section@, changes_sec];
    let with_brk = if breaking.len() > 0 {
        base + seq![cfg.message_template.breaking_section@ + "\n\n"@ + breaking_lines(breaking)]
    } else {
        base
    };
    with_brk + seq![cfg.message_template.testing_section@, cfg.message_template.dependencies_section@]
}

/// The whole message: subject, a blank line, and the sections joined
/// by blank lines.
pub open spec fn message_of(
    cfg: Config,
    files: Seq<(Seq<char>, Seq<Seq<char>>)>,
    breaking: Seq<Seq<char>>,
) -> Seq<char> {
    subject_of(cfg.indicators.deep_view(), cfg.verb_mapping.deep_view(), files) + "\n\n"@
        + join_with(sections_of(cfg, files, breaking), "\n\n"@)
}

pub struct CommitMessageGenerator<'a> {
    pub analyzer: &'a GitDiffAnalyzer,
}

impl<'a> CommitMessageGenerator<'a> {
    pub fn new(analyzer: &'a GitDiffAnalyzer) -> (g: Self)
        ensures
            g.analyzer == analyzer,
    {
        Self { analyzer }
    }

    /// Builds the subject line, as `subject_of` describes it.
    pub fn generate_subject_line(&self, changes: &GitChanges) -> (r: String)
        ensures
            r@ == subject_of(
                self.analyzer.config.indicators.deep_view(),
                self.analyzer.config.verb_mapping.deep_view(),
                changes.files_view(),
            ),
    {
        let ghost fls = changes.files_view();
        let verb = self.analyzer.determine_commit_verb(&changes.file_changes);
        let mut di: usize = 0;
        proof {
            assert(fls.skip(0) == fls);
        }
        while di < changes.file_changes.len() && changes.file_changes[di].1.len() == 0
            invariant
                di <= changes.file_changes.len(),
                changes.files_view() == fls,
                first_desc(fls) == first_desc(fls.skip(di as int)),
            decreases changes.file_changes.len() - di,
        {
            proof {
                assert(fls.skip(di as int)[0] == fls[di as int]);
                assert(fls[di as int].1 == changes.file_changes@[di as int].1.deep_view());
                assert(fls.skip(di as int).skip(1) =~= fls.skip(di + 1));
            }
            di += 1;
        }
        let desc: String = if di < changes.file_changes.len() {
            proof {
                assert(fls.skip(di as int)[0] == fls[di as int]);
                assert(fls[di as int].1[0] == changes.file_changes@[di as int].1@[0]@);
            }
            let trimmed = trim_str(changes.file_changes[di].1[0].as_str());
            lowercase(trimmed.as_str())
        } else {
            proof {
                assert(fls.skip(di as int).len() == 0);
            }
            String::from_str("codebase")
        };
        let ghost desc_v = (match first_desc(fls) {
            Option::Some(c) => lower_of(trim_of(c)),
            Option::None => "codebase"@,
        });
        proof {
            assert(desc@ == desc_v);
        }
        let mut subj = verb;
        subj.append(" ");
        subj.append(desc.as_str());
        let n = subj.as_str().unicode_len();
        if n > 50 {
            let mut cut = String::from_str(subj.as_str().substring_char(0, 47));
            cut.append("...");
            proof {
                assert(subj@.subrange(0, 47) =~= subj@.take(47));
            }
            cut
        } else {
            subj
        }
    }

    /// Wraps body text to 72 columns.
    pub fn wrap_body_text(&self, text: &str) -> (r: String)
        ensures
            r@ == wrap_of(text@),
    {
        wrap_text(text)
    }

    /// Assembles the whole message, as `message_of` describes it.
    pub fn generate_message(&self, changes: &GitChanges) -> (r: String)
        ensures
            r@ == message_of(self.analyzer.config, changes.files_view(), changes.breaking_view()),
    {
        let ghost cfg = self.analyzer.config;
        let ghost fls = changes.files_view();
        let ghost brk = changes.breaking_view();
        let subject = self.generate_subject_line(changes);
        let templates = &self.analyzer.config.message_template;

        let mut sections: Vec<String> = Vec::new();
        sections.push(templates.references_section.clone());

        let mut changes_sec = templates.changes_section.clone();
        changes_sec.append("\n\n");
        let mut fi: usize = 0;
        while fi < changes.file_changes.len()
            invariant
                fi <= changes.file_changes.len(),
                changes.files_view() == fls,
                cfg == self.analyzer.config,
                changes_sec@ == cfg.message_template.changes_section@ + "\n\n"@ + files_text(
                    fls.take(fi as int),
                ),
            decreases changes.file_changes.len() - fi,
        {
            proof {
                assert(fls[fi as int].0 == changes.file_changes@[fi as int].0@);
                assert(fls[fi as int].1 == changes.file_changes@[fi as int].1.deep_view());
            }
            changes_sec.append("* In ");
            changes_sec.append(changes.file_changes[fi].0.as_str());
            changes_sec.append(":\n");
            let ghost f = fls[fi as int];
            let ghost cap_v = capped(f.1);
            let clen = changes.file_changes[fi].1.len();
            let cap: usize = if clen > 3 {
                3
            } else {
                clen
            };
            proof {
                assert(cap as int == cap_v.len());
                assert(changes_lines(cap_v.take(0)).len() == 0);
            }
            let ghost block_base = changes_sec@;
            let mut ci: usize = 0;
            while ci < cap
                invariant
                    ci <= cap,
                    fi < changes.file_changes.len(),
                    changes.files_view() == fls,
                    f == fls[fi as int],
                    cap_v == capped(f.1),
                    cap as int == cap_v.len(),
                    cap <= changes.file_changes@[fi as int].1@.len(),
                    changes_sec@ == block_base + changes_lines(cap_v.take(ci as int)),
                decreases cap - ci,
            {
                proof {
                    assert(fls[fi as int].1[ci as int] == changes.file_changes@[fi as int].1@[
                        ci as int
                    ]@);
                    assert(cap_v[ci as int] == f.1[ci as int]);
                }
                let wrapped = wrap_text(changes.file_changes[fi].1[ci].as_str());
                changes_sec.append("  - ");
                changes_sec.append(wrapped.as_str());
                changes_sec.append("\n");
                proof {
                    assert(cap_v.take(ci + 1).drop_last() =~= cap_v.take(ci as int));
                    assert(cap_v.take(ci + 1).last() == cap_v[ci as int]);
                    assert(changes_lines(cap_v.take(ci + 1)) == changes_lines(
                        cap_v.take(ci as int),
                    ) + "  - "@ + wrap_of(cap_v[ci as int]) + "\n"@);
                }
                ci += 1;
            }
            proof {
                assert(cap_v.take(cap as int) =~= cap_v);
                assert(changes_sec@ == block_base + changes_lines(cap_v));
                assert(fls.take(fi + 1).drop_last() =~= fls.take(fi as int));
                assert(fls.take(fi + 1).last() == fls[fi as int]);
                assert(files_text(fls.take(fi + 1)) == files_text(fls.take(fi as int))
                    + file_block(fls[fi as int]));
            }
            fi += 1;
        }
        proof {
            assert(fls.take(fls.len() as int) =~= fls);
        }
        sections.push(changes_sec);

        if changes.breaking_changes.len() > 0 {
            let mut brk_sec = templates.breaking_section.clone();
            brk_sec.append("\n\n");
            let mut bi: usize = 0;
            proof {
                assert(breaking_lines(brk.take(0)).len() == 0);
            }
            while bi < changes.breaking_changes.len()
                invariant
                    bi <= changes.breaking_changes.len(),
                    changes.breaking_view() == brk,
                    cfg == self.analyzer.config,
                    brk_sec@ == cfg.message_template.breaking_section@ + "\n\n"@
                        + breaking_lines(brk.take(bi as int)),
                decreases changes.breaking_changes.len() - bi,
            {
                proof {
                    assert(brk[bi as int] == changes.breaking_changes@[bi as int]@);
                }
                let wrapped = wrap_text(changes.breaking_changes[bi].as_str());
                brk_sec.append(wrapped.as_str());
                brk_sec.append("\n");
                proof {
                    assert(brk.take(bi + 1).drop_last() =~= brk.take(bi as int));
                    assert(brk.take(bi + 1).last() == brk[bi as int]);
                    assert(breaking_lines(brk.take(bi + 1)) == breaking_lines(
                        brk.take(bi as int),
                    ) + wrap_of(brk[bi as int]) + "\n"@);
                }
                bi += 1;
            }
            proof {
                assert(brk.take(brk.len() as int) =~= brk);
            }
            sections.push(brk_sec);
        }

        sections.push(templates.testing_section.clone());
        sections.push(templates.dependencies_section.clone());
        proof {
            assert(sections.deep_view() =~= sections_of(cfg, fls, brk));
        }
        let body = join_strings(&sections, "\n\n");
        let mut msg = subject;
        msg.append("\n\n");
        msg.append(body.as_str());
        msg
    }
}

} // verus!
