//! The staged-diff analyzer: scans unified diff text into per-file
//! lists of added lines, flags likely breaking changes, and picks the
//! commit verb that the added lines indicate.

use crate::casing::lower_of;
use crate::casing::lowercase;
use crate::policy::Config;
use crate::text::contains_str;
use crate::text::contains_sub;
use crate::text::join_strings;
use crate::text::join_with;
use crate::text::lines_of;
use crate::text::split_lines;
use crate::text::split_words;
use crate::text::starts_with;
use crate::text::starts_with_str;
use crate::text::trim_of;
use crate::text::trim_str;
use crate::text::words_of;
use vstd::prelude::*;

verus! {

/// The staged changes: per-file added lines (files in the order first
/// seen, lines in diff order) and the flagged breaking-change entries.
pub struct GitChanges {
    pub file_changes: Vec<(String, Vec<String>)>,
    pub breaking_changes: Vec<String>,
}

impl GitChanges {
    pub open spec fn files_view(&self) -> Seq<(Seq<char>, Seq<Seq<char>>)> {
        self.file_changes.deep_view()
    }

    pub open spec fn breaking_view(&self) -> Seq<Seq<char>> {
        self.breaking_changes.deep_view()
    }

    pub fn has_changes(&self) -> (r: bool)
        ensures
            r == (self.files_view().len() > 0),
    {
        self.file_changes.len() > 0
    }
}

/// Substrings whose presence in an added line (lowercased) flags it as
/// a possible breaking change.
pub open spec fn breaking_keywords() -> Seq<Seq<char>> {
    seq![
        "remove"@,
        "delete"@,
        "deprecate"@,
        "break"@,
        "change"@,
        "rename"@,
        "refactor"@,
        "drop"@,
        "migrate"@,
    ]
}

/// Case-insensitive, unanchored: any keyword occurring anywhere in the
/// lowercased text flags it.
pub open spec fn is_breaking_text(change: Seq<char>) -> bool {
    exists|k: int|
        0 <= k < breaking_keywords().len() && contains_sub(
            lower_of(change),
            #[trigger] breaking_keywords()[k],
        )
}

/// Repeatedly strips a leading `b/` path marker.
pub open spec fn strip_b_prefix(s: Seq<char>) -> Seq<char>
    decreases s.len(),
{
    if s.len() >= 2 && s[0] == 'b' && s[1] == '/' {
        strip_b_prefix(s.skip(2))
    } else {
        s
    }
}

/// The flagged entry for a breaking change in `file`.
pub open spec fn breaking_entry(file: Seq<char>, change: Seq<char>) -> Seq<char> {
    "* Breaking change in "@ + file + ":\n  "@ + change
}

/// Index of the entry for `f`, or -1 if there is none.
pub open spec fn find_file(files: Seq<(Seq<char>, Seq<Seq<char>>)>, f: Seq<char>) -> int
    decreases files.len(),
{
    if files.len() == 0 {
        -1
    } else if files[0].0 == f {
        0
    } else {
        let r = find_file(files.skip(1), f);
        if r < 0 {
            -1
        } else {
            1 + r
        }
    }
}

/// Pins `find_file` down from what a scan observes.
pub proof fn lemma_find_file_val(files: Seq<(Seq<char>, Seq<Seq<char>>)>, f: Seq<char>, k: int)
    requires
        0 <= k <= files.len(),
        forall|t: int| 0 <= t < k ==> (#[trigger] files[t]).0 != f,
        k < files.len() ==> files[k].0 == f,
    ensures
        k < files.len() ==> find_file(files, f) == k,
        k == files.len() ==> find_file(files, f) == -1,
    decreases files.len(),
{
    if files.len() == 0 {
    } else if files[0].0 == f {
        assert(k == 0);
    } else {
        assert(k >= 1);
        assert forall|t: int| 0 <= t < k - 1 implies (#[trigger] files.skip(1)[t]).0 != f by {
            assert(files.skip(1)[t] == files[t + 1]);
        }
        if k - 1 < files.skip(1).len() {
            assert(files.skip(1)[k - 1] == files[k]);
        }
        lemma_find_file_val(files.skip(1), f, k - 1);
    }
}

/// Appends `c` to the entry for `f`, creating the entry at the end if
/// `f` has not been seen.
pub open spec fn add_change(
    files: Seq<(Seq<char>, Seq<Seq<char>>)>,
    f: Seq<char>,
    c: Seq<char>,
) -> Seq<(Seq<char>, Seq<Seq<char>>)> {
    let i = find_file(files, f);
    if 0 <= i < files.len() {
        files.update(i, (files[i].0, files[i].1.push(c)))
    } else {
        files.push((f, seq![c]))
    }
}

/// The analyzer state after some prefix of the diff: the current file,
/// the per-file added lines, and the flagged breaking changes.
pub ghost struct DiffState {
    pub cur: Option<Seq<char>>,
    pub files: Seq<(Seq<char>, Seq<Seq<char>>)>,
    pub breaking: Seq<Seq<char>>,
}

pub open spec fn init_diff_state() -> DiffState {
    DiffState { cur: Option::None, files: Seq::empty(), breaking: Seq::empty() }
}

/// One diff line: a `diff --git` header moves the current file to its
/// last whitespace-separated token with the `b/` marker stripped; an
/// added line (`+` but not `+++`) is trimmed and, if non-empty,
/// recorded under the current file and tested against the breaking
/// keywords. Everything else is ignored.
pub open spec fn diff_step(st: DiffState, line: Seq<char>) -> DiffState {
    if starts_with(line, "diff --git"@) {
        let ws = words_of(line);
        DiffState {
            cur: if ws.len() == 0 {
                Option::None
            } else {
                Option::Some(strip_b_prefix(ws.last()))
            },
            files: st.files,
            breaking: st.breaking,
        }
    } else if starts_with(line, "+"@) && !starts_with(line, "+++"@) {
        match st.cur {
            Option::None => st,
            Option::Some(f) => {
                let change = trim_of(line.skip(1));
                if change.len() == 0 {
                    st
                } else {
                    DiffState {
                        cur: st.cur,
                        files: add_change(st.files, f, change),
                        breaking: if is_breaking_text(change) {
                            st.breaking.push(breaking_entry(f, change))
                        } else {
                            st.breaking
                        },
                    }
                }
            },
        }
    } else {
        st
    }
}

/// The state after the first `n` lines.
pub open spec fn diff_fold(lines: Seq<Seq<char>>, n: int) -> DiffState
    decreases n,
{
    if n <= 0 {
        init_diff_state()
    } else {
        diff_step(diff_fold(lines, n - 1), lines[n - 1])
    }
}

/// The full analysis of a diff text.
pub open spec fn analysis_of(diff: Seq<char>) -> DiffState {
    diff_fold(lines_of(diff), lines_of(diff).len() as int)
}

fn strip_marker(s: &str) -> (r: String)
    ensures
        r@ == strip_b_prefix(s@),
{
    let mut cur = String::from_str(s);
    loop
        invariant
            strip_b_prefix(s@) == strip_b_prefix(cur@),
        decreases cur@.len(),
    {
        let n = cur.as_str().unicode_len();
        if n >= 2 && cur.as_str().get_char(0) == 'b' && cur.as_str().get_char(1) == '/' {
            let next = String::from_str(cur.as_str().substring_char(2, n));
            proof {
                assert(next@ == cur@.skip(2));
            }
            cur = next;
        } else {
            return cur;
        }
    }
}

pub struct GitDiffAnalyzer {
    pub config: Config,
}

impl GitDiffAnalyzer {
    pub fn new(config: Config) -> (a: Self)
        ensures
            a.config == config,
    {
        Self { config }
    }

    /// Scans the diff line by line, as `diff_step` describes.
    pub fn analyse_diff(&self, diff_output: &str) -> (r: GitChanges)
        ensures
            r.files_view() == analysis_of(diff_output@).files,
            r.breaking_view() == analysis_of(diff_output@).breaking,
    {
        let ghost lv = lines_of(diff_output@);
        let lines = split_lines(diff_output);
        let mut file_changes: Vec<(String, Vec<String>)> = Vec::new();
        let mut breaking_changes: Vec<String> = Vec::new();
        let mut current_file: Option<String> = Option::None;
        let mut i: usize = 0;
        while i < lines.len()
            invariant
                i <= lines.len(),
                lines.deep_view() == lv,
                file_changes.deep_view() == diff_fold(lv, i as int).files,
                breaking_changes.deep_view() == diff_fold(lv, i as int).breaking,
                current_file.deep_view() == diff_fold(lv, i as int).cur,
            decreases lines.len() - i,
        {
            let ghost st = diff_fold(lv, i as int);
            let ghost line_v = lv[i as int];
            proof {
                assert(lines.deep_view()[i as int] == lines@[i as int]@);
            }
            let line: &String = &lines[i];
            if starts_with_str(line.as_str(), "diff --git") {
                let ws = split_words(line.as_str());
                if ws.len() > 0 {
                    proof {
                        assert(ws.deep_view()[ws@.len() - 1] == ws@[ws@.len() - 1]@);
                        assert(words_of(line_v).last() == ws@[ws@.len() - 1]@);
                    }
                    let stripped = strip_marker(ws[ws.len() - 1].as_str());
                    current_file = Option::Some(stripped);
                } else {
                    current_file = Option::None;
                }
            } else {
                let is_add = starts_with_str(line.as_str(), "+") && !starts_with_str(
                    line.as_str(),
                    "+++",
                );
                if is_add {
                    let take_it = match &current_file {
                        Option::Some(f) => true,
                        Option::None => false,
                    };
                    if take_it {
                        let fkey: String = match &current_file {
                            Option::Some(f) => f.clone(),
                            Option::None => String::new(),
                        };
                        let ghost fv = st.cur->Some_0;
                        proof {
                            assert(fkey@ == fv);
                            reveal_strlit("+");
                        }
                        let n = line.as_str().unicode_len();
                        let rest = line.as_str().substring_char(1, n);
                        proof {
                            assert(rest@ =~= line_v.skip(1));
                        }
                        let change = trim_str(rest);
                        let ghost cv = trim_of(line_v.skip(1));
                        if change.as_str().unicode_len() > 0 {
                            // record the change under the current file
                            let mut idx: usize = 0;
                            let mut found: bool = false;
                            let ghost fls = st.files;
                            while idx < file_changes.len() && !found
                                invariant
                                    idx <= file_changes.len(),
                                    file_changes.deep_view() == fls,
                                    fkey@ == fv,
                                    !found ==> forall|t: int|
                                        0 <= t < idx ==> (#[trigger] fls[t]).0 != fv,
                                    found ==> idx < fls.len() && fls[idx as int].0 == fv
                                        && (forall|t: int|
                                        0 <= t < idx ==> (#[trigger] fls[t]).0 != fv),
                                decreases file_changes.len() - idx + (if found {
                                    0int
                                } else {
                                    1int
                                }),
                            {
                                proof {
                                    assert(fls[idx as int].0 == file_changes@[idx as int].0@);
                                }
                                if file_changes[idx].0 == fkey {
                                    found = true;
                                } else {
                                    idx += 1;
                                }
                            }
                            if found {
                                proof {
                                    lemma_find_file_val(fls, fv, idx as int);
                                }
                                let mut entry = file_changes.remove(idx);
                                entry.1.push(change.clone());
                                file_changes.insert(idx, entry);
                                proof {
                                    assert(file_changes.deep_view() =~~= add_change(
                                        fls,
                                        fv,
                                        cv,
                                    ));
                                }
                            } else {
                                proof {
                                    lemma_find_file_val(fls, fv, idx as int);
                                }
                                let mut one: Vec<String> = Vec::new();
                                one.push(change.clone());
                                file_changes.push((fkey.clone(), one));
                                proof {
                                    assert(file_changes.deep_view() =~~= add_change(
                                        fls,
                                        fv,
                                        cv,
                                    ));
                                }
                            }
                            if self.is_breaking_change(change.as_str()) {
                                let mut entry_text = String::from_str("* Breaking change in ");
                                entry_text.append(fkey.as_str());
                                entry_text.append(":\n  ");
                                entry_text.append(change.as_str());
                                proof {
                                    assert(entry_text@ == breaking_entry(fv, cv));
                                }
                                let ghost old_b = breaking_changes.deep_view();
                                breaking_changes.push(entry_text);
                                proof {
                                    assert(breaking_changes.deep_view() =~= old_b.push(
                                        breaking_entry(fv, cv),
                                    ));
                                }
                            }
                        }
                    }
                }
            }
            proof {
                assert(diff_fold(lv, i + 1) == diff_step(st, line_v));
                assert(file_changes.deep_view() =~~= diff_fold(lv, i + 1).files);
                assert(breaking_changes.deep_view() =~~= diff_fold(lv, i + 1).breaking);
                assert(current_file.deep_view() =~~= diff_fold(lv, i + 1).cur);
            }
            i += 1;
        }
        let r = GitChanges { file_changes, breaking_changes };
        proof {
            assert(r.files_view() == diff_fold(lv, lv.len() as int).files);
        }
        r
    }

    /// Whether an added line is flagged as a possible breaking change.
    pub fn is_breaking_change(&self, change: &str) -> (r: bool)
        ensures
            r == is_breaking_text(change@),
    {
        let low = lowercase(change);
        let ghost lo = lower_of(change@);
        let c0 = contains_str(low.as_str(), "remove");
        let c1 = contains_str(low.as_str(), "delete");
        let c2 = contains_str(low.as_str(), "deprecate");
        let c3 = contains_str(low.as_str(), "break");
        let c4 = contains_str(low.as_str(), "change");
        let c5 = contains_str(low.as_str(), "rename");
        let c6 = contains_str(low.as_str(), "refactor");
        let c7 = contains_str(low.as_str(), "drop");
        let c8 = contains_str(low.as_str(), "migrate");
        let r = c0 || c1 || c2 || c3 || c4 || c5 || c6 || c7 || c8;
        proof {
            let kws = breaking_keywords();
            assert(kws[0] == "remove"@);
            assert(kws[1] == "delete"@);
            assert(kws[2] == "deprecate"@);
            assert(kws[3] == "break"@);
            assert(kws[4] == "change"@);
            assert(kws[5] == "rename"@);
            assert(kws[6] == "refactor"@);
            assert(kws[7] == "drop"@);
            assert(kws[8] == "migrate"@);
            if r {
                assert(is_breaking_text(change@));
            } else {
                assert forall|k: int| 0 <= k < kws.len() implies !contains_sub(
                    lo,
                    #[trigger] kws[k],
                ) by {
                    if k == 0 {
                    } else if k == 1 {
                    } else if k == 2 {
                    } else if k == 3 {
                    } else if k == 4 {
                    } else if k == 5 {
                    } else if k == 6 {
                    } else if k == 7 {
                    } else {
                        assert(k == 8);
                    }
                }
            }
        }
        r
    }
}

/// All added lines, across files in listed order.
pub open spec fn flat_changes(files: Seq<(Seq<char>, Seq<Seq<char>>)>) -> Seq<Seq<char>>
    decreases files.len(),
{
    if files.len() == 0 {
        Seq::empty()
    } else {
        flat_changes(files.drop_last()) + files.last().1
    }
}

pub open spec fn map_lower(cs: Seq<Seq<char>>) -> Seq<Seq<char>> {
    cs.map_values(|c: Seq<char>| lower_of(c))
}

/// Every added line lowercased, joined with single spaces: the text
/// that the verb indicators are matched against.
pub open spec fn lowered_join(files: Seq<(Seq<char>, Seq<Seq<char>>)>) -> Seq<char> {
    join_with(map_lower(flat_changes(files)), " "@)
}

pub open spec fn any_kw_matches(kws: Seq<Seq<char>>, all: Seq<char>) -> bool {
    exists|j: int| 0 <= j < kws.len() && contains_sub(all, #[trigger] kws[j])
}

/// The canonical verb for a category, `Add` if the category is not
/// mapped.
pub open spec fn verb_for(mapping: Seq<(Seq<char>, Seq<char>)>, cat: Seq<char>) -> Seq<char>
    decreases mapping.len(),
{
    if mapping.len() == 0 {
        "Add"@
    } else if mapping[0].0 == cat {
        mapping[0].1
    } else {
        verb_for(mapping.skip(1), cat)
    }
}

/// The verb of the first indicator category with a keyword occurring
/// in `all`, `Add` if none matches.
pub open spec fn select_verb(
    inds: Seq<(Seq<char>, Seq<Seq<char>>)>,
    mapping: Seq<(Seq<char>, Seq<char>)>,
    all: Seq<char>,
) -> Seq<char>
    decreases inds.len(),
{
    if inds.len() == 0 {
        "Add"@
    } else if any_kw_matches(inds[0].1, all) {
        verb_for(mapping, inds[0].0)
    } else {
        select_verb(inds.skip(1), mapping, all)
    }
}

impl GitDiffAnalyzer {
    /// Picks the commit verb that the added lines indicate.
    pub fn determine_commit_verb(&self, file_changes: &Vec<(String, Vec<String>)>) -> (r: String)
        ensures
            r@ == select_verb(
                self.config.indicators.deep_view(),
                self.config.verb_mapping.deep_view(),
                lowered_join(file_changes.deep_view()),
            ),
    {
        let ghost fls = file_changes.deep_view();
        let mut lowered: Vec<String> = Vec::new();
        let mut fi: usize = 0;
        while fi < file_changes.len()
            invariant
                fi <= file_changes.len(),
                file_changes.deep_view() == fls,
                lowered.deep_view() == map_lower(flat_changes(fls.take(fi as int))),
            decreases file_changes.len() - fi,
        {
            let ghost pre = map_lower(flat_changes(fls.take(fi as int)));
            let mut ci: usize = 0;
            while ci < file_changes[fi].1.len()
                invariant
                    fi < file_changes.len(),
                    ci <= file_changes@[fi as int].1@.len(),
                    file_changes.deep_view() == fls,
                    pre == map_lower(flat_changes(fls.take(fi as int))),
                    lowered.deep_view() == pre + map_lower(fls[fi as int].1.take(ci as int)),
                decreases file_changes@[fi as int].1@.len() - ci,
            {
                proof {
                    assert(fls[fi as int].1 == file_changes@[fi as int].1.deep_view());
                    assert(fls[fi as int].1[ci as int] == file_changes@[fi as int].1@[ci as int]@);
                }
                let low = lowercase(file_changes[fi].1[ci].as_str());
                let ghost old_l = lowered.deep_view();
                lowered.push(low);
                proof {
                    assert(lowered.deep_view() =~= old_l + seq![
                        lower_of(fls[fi as int].1[ci as int]),
                    ]);
                    assert(map_lower(fls[fi as int].1.take(ci + 1)) =~= map_lower(
                        fls[fi as int].1.take(ci as int),
                    ) + seq![lower_of(fls[fi as int].1[ci as int])]);
                    assert(lowered.deep_view() =~= pre + map_lower(
                        fls[fi as int].1.take(ci + 1),
                    ));
                }
                ci += 1;
            }
            proof {
                assert(fls[fi as int].1.take(file_changes@[fi as int].1@.len() as int) =~= fls[
                    fi as int
                ].1);
                assert(fls.take(fi + 1).drop_last() =~= fls.take(fi as int));
                assert(fls.take(fi + 1).last() == fls[fi as int]);
                assert(flat_changes(fls.take(fi + 1)) == flat_changes(fls.take(fi as int)) + fls[
                    fi as int
                ].1);
                assert(lowered.deep_view() =~= map_lower(flat_changes(fls.take(fi + 1))));
            }
            fi += 1;
        }
        let all = join_strings(&lowered, " ");
        proof {
            assert(fls.take(fls.len() as int) =~= fls);
            assert(all@ == lowered_join(fls));
        }
        let ghost inds = self.config.indicators.deep_view();
        let ghost mapping = self.config.verb_mapping.deep_view();
        let ghost allv = all@;
        proof {
            assert(inds.skip(0) == inds);
        }
        let mut ii: usize = 0;
        while ii < self.config.indicators.len()
            invariant
                ii <= self.config.indicators.len(),
                inds == self.config.indicators.deep_view(),
                mapping == self.config.verb_mapping.deep_view(),
                allv == all@,
                allv == lowered_join(file_changes.deep_view()),
                select_verb(inds, mapping, allv) == select_verb(
                    inds.skip(ii as int),
                    mapping,
                    allv,
                ),
            decreases self.config.indicators.len() - ii,
        {
            let ghost kws = inds[ii as int].1;
            let mut kj: usize = 0;
            let mut found: bool = false;
            while kj < self.config.indicators[ii].1.len() && !found
                invariant
                    ii < self.config.indicators.len(),
                    kj <= self.config.indicators@[ii as int].1@.len(),
                    inds == self.config.indicators.deep_view(),
                    kws == inds[ii as int].1,
                    allv == all@,
                    !found ==> forall|t: int|
                        0 <= t < kj ==> !contains_sub(allv, #[trigger] kws[t]),
                    found ==> any_kw_matches(kws, allv),
                decreases self.config.indicators@[ii as int].1@.len() - kj + (if found {
                    0int
                } else {
                    1int
                }),
            {
                proof {
                    assert(kws == self.config.indicators@[ii as int].1.deep_view());
                    assert(kws[kj as int] == self.config.indicators@[ii as int].1@[kj as int]@);
                }
                if contains_str(all.as_str(), self.config.indicators[ii].1[kj].as_str()) {
                    found = true;
                } else {
                    kj += 1;
                }
            }
            if found {
                let ghost cat = inds[ii as int].0;
                proof {
                    assert(inds.skip(ii as int)[0] == inds[ii as int]);
                    assert(select_verb(inds.skip(ii as int), mapping, allv) == verb_for(
                        mapping,
                        cat,
                    ));
                }
                let cat_s = self.config.indicators[ii].0.clone();
                proof {
                    assert(cat_s@ == cat);
                    assert(mapping.skip(0) == mapping);
                }
                let mut mi: usize = 0;
                while mi < self.config.verb_mapping.len()
                    invariant
                        mi <= self.config.verb_mapping.len(),
                        inds == self.config.indicators.deep_view(),
                        mapping == self.config.verb_mapping.deep_view(),
                        cat_s@ == cat,
                        allv == lowered_join(file_changes.deep_view()),
                        verb_for(mapping, cat) == verb_for(mapping.skip(mi as int), cat),
                        select_verb(inds, mapping, allv) == verb_for(mapping, cat),
                    decreases self.config.verb_mapping.len() - mi,
                {
                    proof {
                        assert(mapping[mi as int].0 == self.config.verb_mapping@[mi as int].0@);
                        assert(mapping[mi as int].1 == self.config.verb_mapping@[mi as int].1@);
                        assert(mapping.skip(mi as int)[0] == mapping[mi as int]);
                        assert(mapping.skip(mi as int).skip(1) =~= mapping.skip(mi + 1));
                    }
                    if self.config.verb_mapping[mi].0 == cat_s {
                        proof {
                            assert(verb_for(mapping.skip(mi as int), cat) == mapping[
                                mi as int
                            ].1);
                        }
                        return self.config.verb_mapping[mi].1.clone();
                    }
                    mi += 1;
                }
                proof {
                    assert(mapping.skip(mapping.len() as int).len() == 0);
                }
                return String::from_str("Add");
            }
            proof {
                assert(inds.skip(ii as int)[0] == inds[ii as int]);
                assert(!any_kw_matches(inds[ii as int].1, allv));
                assert(inds.skip(ii as int).skip(1) =~= inds.skip(ii + 1));
            }
            ii += 1;
        }
        proof {
            assert(inds.skip(inds.len() as int).len() == 0);
        }
        String::from_str("Add")
    }
}

} // verus!
