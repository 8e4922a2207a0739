//! The rule locator and the rule compiler: resolving a comma-separated list
//! of rule names to file paths under a rules directory, assembling the
//! fragments of the rule files into one alternation pattern, and listing the
//! rule names a directory offers.

use vstd::prelude::*;

use crate::errors::Error;
use crate::text::{
    dedup_first, join_strings, join_with, lemma_contains_split, lemma_dedup_first_contains,
    lemma_dedup_first_no_dup, lemma_lex_le_antisym, lemma_lex_le_refl, lemma_lex_le_total,
    lemma_lex_le_trans, lex_le, rtrim_crlf, split_chars, split_str, str_eq, str_le, trim_line,
    vec_contains,
};

verus! {

// ------------------------------------------------------------------
// Rule locator
// ------------------------------------------------------------------

/// A rule name joined to the rules directory with a path separator.
pub open spec fn join_path_spec(dir: Seq<char>, name: Seq<char>) -> Seq<char> {
    dir + seq!['/'] + name
}

/// The candidate path of every name, in the order the names were given.
pub open spec fn paths_of(names: Seq<Seq<char>>, dir: Seq<char>) -> Seq<Seq<char>> {
    names.map_values(|n: Seq<char>| join_path_spec(dir, n))
}

fn join_path(dir: &str, name: &str) -> (r: String)
    ensures
        r@ == join_path_spec(dir@, name@),
{
    let mut r = String::from_str(dir);
    r.append("/");
    r.append(name);
    proof {
        reveal_strlit("/");
        assert(r@ =~= join_path_spec(dir@, name@));
    }
    r
}

/// Splits the comma-separated rule list into its names. Nothing is trimmed:
/// rule names are taken exactly as written.
pub fn parse_rule_names(csv: &str) -> (r: Vec<String>)
    ensures
        r.deep_view() == split_chars(csv@, ','),
{
    split_str(csv, ',')
}

/// Joins each rule name to the rules directory and de-duplicates the
/// resulting paths, keeping the first occurrence of each and the order in
/// which the names were given.
pub fn build_rule_paths(names: &Vec<String>, directory: &str) -> (r: Vec<String>)
    ensures
        r.deep_view() == dedup_first(paths_of(names.deep_view(), directory@)),
{
    let mut r: Vec<String> = Vec::new();
    let mut i: usize = 0;
    proof {
        assert(paths_of(names.deep_view().take(0), directory@) =~= Seq::<Seq<char>>::empty());
        assert(r.deep_view() =~= Seq::<Seq<char>>::empty());
    }
    while i < names.len()
        invariant
            0 <= i <= names@.len(),
            r.deep_view() == dedup_first(paths_of(names.deep_view().take(i as int), directory@)),
        decreases names@.len() - i,
    {
        let p = join_path(directory, names[i].as_str());
        let ghost dv = names.deep_view();
        let ghost prev = paths_of(dv.take(i as int), directory@);
        let ghost next = paths_of(dv.take(i + 1), directory@);
        proof {
            assert(next.drop_last() =~= prev);
            assert(next.last() == join_path_spec(directory@, dv[i as int]));
            lemma_dedup_first_contains(prev, p@);
        }
        if !vec_contains(&r, &p) {
            let ghost pre = r.deep_view();
            r.push(p);
            proof {
                assert(r.deep_view() =~= pre.push(next.last()));
            }
        }
        i = i + 1;
    }
    proof {
        assert(names.deep_view().take(names@.len() as int) =~= names.deep_view());
    }
    r
}

/// The rule locator in one step: the de-duplicated candidate paths of a
/// comma-separated rule list under a rules directory.
pub fn parse_rules_filenames(rules: &str, config_dir: &str) -> (r: Vec<String>)
    ensures
        r.deep_view() == dedup_first(paths_of(split_chars(rules@, ','), config_dir@)),
{
    let names = parse_rule_names(rules);
    build_rule_paths(&names, config_dir)
}

/// Law: building rule paths has set semantics on the distinct joined paths.
/// The result holds no duplicates; it holds exactly the paths of the given
/// names; and a name that is already present contributes nothing when given
/// again.
pub proof fn lemma_rule_paths_set_semantics(names: Seq<Seq<char>>, dir: Seq<char>)
    ensures
        dedup_first(paths_of(names, dir)).no_duplicates(),
        forall|p: Seq<char>| #[trigger]
            dedup_first(paths_of(names, dir)).contains(p) == paths_of(names, dir).contains(p),
        forall|n: Seq<char>|
            names.contains(n) ==> dedup_first(paths_of(names.push(n), dir)) == dedup_first(
                paths_of(names, dir),
            ),
{
    lemma_dedup_first_no_dup(paths_of(names, dir));
    assert forall|p: Seq<char>| #[trigger]
        dedup_first(paths_of(names, dir)).contains(p) == paths_of(names, dir).contains(p) by {
        lemma_dedup_first_contains(paths_of(names, dir), p);
    }
    assert forall|n: Seq<char>| names.contains(n) implies dedup_first(paths_of(names.push(n), dir))
        == dedup_first(paths_of(names, dir)) by {
        let ps = paths_of(names, dir);
        let ext = paths_of(names.push(n), dir);
        assert(ext.drop_last() =~= ps);
        assert(ext.last() == join_path_spec(dir, n));
        let i = choose|i: int| 0 <= i < names.len() && names[i] == n;
        assert(ps[i] == join_path_spec(dir, n));
        assert(ps.contains(join_path_spec(dir, n)));
    }
}

// ------------------------------------------------------------------
// Rules directory resolution
// ------------------------------------------------------------------

/// The default rules directory under a configuration home.
pub open spec fn default_rules_path(config_home: Seq<char>) -> Seq<char> {
    config_home + "/q/rules"@
}

/// Relies on xdg_basedir::get_config_home: the XDG configuration home
/// ($XDG_CONFIG_HOME if set, else $HOME/.config), or nothing when the
/// environment defines no home directory. The result depends on the
/// environment alone, so nothing more is promised of it.
#[verifier::external_body]
fn fetch_config_home() -> Option<String> {
    match xdg_basedir::get_config_home() {
        Ok(path) => match path.into_os_string().into_string() {
            Ok(s) => Some(s),
            Err(_) => None,
        },
        Err(_) => None,
    }
}

/// Chooses the rules directory from an explicit override and a discovered
/// configuration home: the override wins untouched; otherwise the home
/// extended with the default rules location; otherwise a configuration
/// error.
pub fn rules_directory_from(explicit: Option<&str>, config_home: Option<String>) -> (r: Result<
    String,
    Error,
>)
    ensures
        (match explicit {
            Some(d) => r matches Ok(p) && p@ == d@,
            None => match config_home {
                Some(h) => r matches Ok(p) && p@ == default_rules_path(h@),
                None => r == Err::<String, Error>(Error::Config),
            },
        }),
{
    match explicit {
        Some(d) => Ok(String::from_str(d)),
        None => match config_home {
            Some(h) => {
                let mut p = h;
                p.append("/q/rules");
                Ok(p)
            },
            None => Err(Error::Config),
        },
    }
}

/// Resolves the rules directory: an explicit directory is taken as given;
/// with none, the environment's configuration home is discovered and
/// extended with the default rules location; the error comes exactly when
/// neither is available.
pub fn get_rules_directory(explicit: Option<&str>) -> (r: Result<String, Error>)
    ensures
        (explicit matches Some(d) ==> r matches Ok(p) && p@ == d@),
        explicit is None && r is Ok ==> exists|h: Seq<char>| r->Ok_0@ == default_rules_path(h),
        (r matches Err(e) ==> explicit is None && e == Error::Config),
{
    let home = fetch_config_home();
    let ghost ghome = home;
    let r = rules_directory_from(explicit, home);
    proof {
        if explicit is None {
            match ghome {
                Some(h) => {
                    assert(r matches Ok(p) && p@ == default_rules_path(h@));
                },
                None => {},
            }
        }
    }
    r
}

// ------------------------------------------------------------------
// Rule compiler
// ------------------------------------------------------------------

/// A fragment wrapped in a non-capturing group, so that alternation
/// precedence cannot leak between fragments.
pub open spec fn wrap_fragment(l: Seq<char>) -> Seq<char> {
    "(?:"@ + l + ")"@
}

/// The wrapped fragments of a file's lines: each line is right-trimmed of
/// line terminators, lines left empty are skipped, and the rest are wrapped
/// in order.
pub open spec fn line_fragments(lines: Seq<Seq<char>>) -> Seq<Seq<char>>
    decreases lines.len(),
{
    if lines.len() == 0 {
        Seq::<Seq<char>>::empty()
    } else {
        let rest = line_fragments(lines.drop_last());
        let t = rtrim_crlf(lines.last());
        if t.len() == 0 {
            rest
        } else {
            rest.push(wrap_fragment(t))
        }
    }
}

/// The wrapped fragments of one rule file's contents.
pub open spec fn fragments_of(content: Seq<char>) -> Seq<Seq<char>> {
    line_fragments(split_chars(content, '\n'))
}

/// The wrapped fragments of every rule file, in file order.
pub open spec fn all_fragments(contents: Seq<Seq<char>>) -> Seq<Seq<char>>
    decreases contents.len(),
{
    if contents.len() == 0 {
        Seq::<Seq<char>>::empty()
    } else {
        all_fragments(contents.drop_last()) + fragments_of(contents.last())
    }
}

/// The single alternation pattern of a set of rule files.
pub open spec fn pattern_spec(contents: Seq<Seq<char>>) -> Seq<char> {
    join_with(all_fragments(contents), "|"@)
}

fn wrap_fragment_exec(l: &str) -> (r: String)
    ensures
        r@ == wrap_fragment(l@),
{
    let mut r = String::from_str("(?:");
    r.append(l);
    r.append(")");
    r
}

/// Assembles the single alternation pattern from the contents of the rule
/// files, one string per file: each file is split into lines, every line is
/// right-trimmed of line terminators, blank lines are skipped, each kept
/// line is wrapped in a non-capturing group, and the groups are joined with
/// the alternation bar.
///
/// A rule set whose files hold only blank lines yields the empty pattern
/// string; the engine is expected to compile the empty pattern to a matcher
/// that matches every line, which is the documented behaviour here.
pub fn build_pattern(contents: &Vec<String>) -> (r: String)
    ensures
        r@ == pattern_spec(contents.deep_view()),
{
    let mut frags: Vec<String> = Vec::new();
    let mut i: usize = 0;
    proof {
        assert(contents.deep_view().take(0) =~= Seq::<Seq<char>>::empty());
        assert(frags.deep_view() =~= Seq::<Seq<char>>::empty());
    }
    while i < contents.len()
        invariant
            0 <= i <= contents@.len(),
            frags.deep_view() == all_fragments(contents.deep_view().take(i as int)),
        decreases contents@.len() - i,
    {
        let lines = split_str(contents[i].as_str(), '\n');
        let ghost cdv = contents.deep_view();
        let ghost ldv = lines.deep_view();
        let mut j: usize = 0;
        proof {
            assert(ldv.take(0) =~= Seq::<Seq<char>>::empty());
            assert(line_fragments(ldv.take(0)) =~= Seq::<Seq<char>>::empty());
            assert(frags.deep_view() + line_fragments(ldv.take(0)) =~= frags.deep_view());
        }
        while j < lines.len()
            invariant
                0 <= j <= lines@.len(),
                0 <= i < contents@.len(),
                ldv == lines.deep_view(),
                cdv == contents.deep_view(),
                ldv == split_chars(cdv[i as int], '\n'),
                frags.deep_view() == all_fragments(cdv.take(i as int)) + line_fragments(
                    ldv.take(j as int),
                ),
            decreases lines@.len() - j,
        {
            let t = trim_line(lines[j].as_str());
            proof {
                assert(ldv.take(j + 1).drop_last() =~= ldv.take(j as int));
                assert(ldv.take(j + 1).last() == ldv[j as int]);
            }
            if !t.as_str().is_empty() {
                let ghost pre = frags.deep_view();
                frags.push(wrap_fragment_exec(t.as_str()));
                proof {
                    assert(frags.deep_view() =~= pre.push(wrap_fragment(rtrim_crlf(
                        ldv[j as int],
                    ))));
                    assert(frags.deep_view() =~= all_fragments(cdv.take(i as int))
                        + line_fragments(ldv.take(j + 1)));
                }
            }
            j = j + 1;
        }
        proof {
            assert(ldv.take(lines@.len() as int) =~= ldv);
            assert(cdv.take(i + 1).drop_last() =~= cdv.take(i as int));
            assert(cdv.take(i + 1).last() == cdv[i as int]);
        }
        i = i + 1;
    }
    proof {
        assert(contents.deep_view().take(contents@.len() as int) =~= contents.deep_view());
    }
    join_strings(&frags, "|")
}

// ------------------------------------------------------------------
// Listing the available rules
// ------------------------------------------------------------------

/// Whether a directory entry is listed as a rule name; the reserved
/// documentation files are not.
pub open spec fn is_listed_name(x: Seq<char>) -> bool {
    x != "LICENSE"@ && x != "README.md"@
}

/// The listing order: non-decreasing in code-point lexicographic order.
pub open spec fn lex_sorted(s: Seq<Seq<char>>) -> bool {
    forall|i: int, j: int| 0 <= i < j < s.len() ==> lex_le(s[i], s[j])
}

proof fn lemma_filter_listed_contains(s: Seq<Seq<char>>, x: Seq<char>)
    ensures
        s.filter(|e: Seq<char>| is_listed_name(e)).contains(x) == (s.contains(x) && is_listed_name(
            x,
        )),
    decreases s.len(),
{
    reveal(Seq::filter);
    if s.len() > 0 {
        let d = s.drop_last();
        lemma_filter_listed_contains(d, x);
        lemma_contains_split(s, x);
        let fd = d.filter(|e: Seq<char>| is_listed_name(e));
        if is_listed_name(s.last()) {
            assert(s.filter(|e: Seq<char>| is_listed_name(e)) == fd.push(s.last()));
            lemma_contains_split(fd.push(s.last()), x);
            assert(fd.push(s.last()).drop_last() =~= fd);
        }
    }
}

fn filter_reserved(entries: &Vec<String>) -> (r: Vec<String>)
    ensures
        r.deep_view() == entries.deep_view().filter(|e: Seq<char>| is_listed_name(e)),
{
    proof {
        reveal(Seq::filter);
    }
    let mut r: Vec<String> = Vec::new();
    let mut i: usize = 0;
    proof {
        assert(entries.deep_view().take(0) =~= Seq::<Seq<char>>::empty());
        assert(r.deep_view() =~= Seq::<Seq<char>>::empty());
        assert(Seq::<Seq<char>>::empty().filter(|e: Seq<char>| is_listed_name(e))
            =~= Seq::<Seq<char>>::empty());
    }
    while i < entries.len()
        invariant
            0 <= i <= entries@.len(),
            r.deep_view() == entries.deep_view().take(i as int).filter(
                |e: Seq<char>| is_listed_name(e),
            ),
        decreases entries@.len() - i,
    {
        let ghost dv = entries.deep_view();
        proof {
            reveal(Seq::filter);
            assert(dv.take(i + 1).drop_last() =~= dv.take(i as int));
            assert(dv.take(i + 1).last() == dv[i as int]);
        }
        let keep = !str_eq(entries[i].as_str(), "LICENSE") && !str_eq(
            entries[i].as_str(),
            "README.md",
        );
        if keep {
            let ghost pre = r.deep_view();
            let e = entries[i].clone();
            r.push(e);
            proof {
                assert(r.deep_view() =~= pre.push(dv[i as int]));
            }
        }
        i = i + 1;
    }
    proof {
        assert(entries.deep_view().take(entries@.len() as int) =~= entries.deep_view());
    }
    r
}

fn insert_sorted(r: &mut Vec<String>, x: String)
    requires
        lex_sorted(old(r).deep_view()),
    ensures
        lex_sorted(final(r).deep_view()),
        final(r).deep_view().to_multiset() == old(r).deep_view().to_multiset().insert(x@),
{
    broadcast use vstd::seq_lib::to_multiset_insert;

    let mut j: usize = 0;
    loop
        invariant
            0 <= j <= r@.len(),
            *r == *old(r),
            forall|k: int| 0 <= k < j ==> !lex_le(x@, r.deep_view()[k]),
        ensures
            0 <= j <= r@.len(),
            *r == *old(r),
            forall|k: int| 0 <= k < j ==> !lex_le(x@, r.deep_view()[k]),
            j < r@.len() ==> lex_le(x@, r.deep_view()[j as int]),
        decreases r@.len() - j,
    {
        if j == r.len() {
            break;
        }
        if str_le(x.as_str(), r[j].as_str()) {
            break;
        }
        j = j + 1;
    }
    let ghost pre = r.deep_view();
    let ghost pos = j as int;
    let ghost inserted = pre.insert(pos, x@);
    r.insert(j, x);
    proof {
        assert(r.deep_view() =~= inserted);
        assert forall|a: int, b: int| 0 <= a < b < inserted.len() implies lex_le(
            inserted[a],
            inserted[b],
        ) by {
            if a < pos && b == pos {
                lemma_lex_le_total(inserted[b], pre[a]);
            } else if a == pos && b > pos {
                if pos < pre.len() {
                    if b - 1 > pos {
                        assert(lex_le(pre[pos], pre[b - 1]));
                    } else {
                        lemma_lex_le_refl(pre[pos]);
                    }
                    lemma_lex_le_trans(inserted[a], pre[pos], pre[b - 1]);
                }
            }
        }
    }
}

fn sort_strings(v: &Vec<String>) -> (r: Vec<String>)
    ensures
        lex_sorted(r.deep_view()),
        r.deep_view().to_multiset() == v.deep_view().to_multiset(),
{
    broadcast use vstd::seq_lib::to_multiset_build;

    let mut r: Vec<String> = Vec::new();
    let mut i: usize = 0;
    proof {
        assert(v.deep_view().take(0) =~= Seq::<Seq<char>>::empty());
        assert(r.deep_view() =~= Seq::<Seq<char>>::empty());
    }
    while i < v.len()
        invariant
            0 <= i <= v@.len(),
            lex_sorted(r.deep_view()),
            r.deep_view().to_multiset() == v.deep_view().take(i as int).to_multiset(),
        decreases v@.len() - i,
    {
        let ghost dv = v.deep_view();
        let x = v[i].clone();
        insert_sorted(&mut r, x);
        proof {
            assert(dv.take(i + 1) =~= dv.take(i as int).push(dv[i as int]));
            vstd::seq_lib::to_multiset_build(dv.take(i as int), dv[i as int]);
        }
        i = i + 1;
    }
    proof {
        assert(v.deep_view().take(v@.len() as int) =~= v.deep_view());
    }
    r
}

fn dedup_sorted(v: &Vec<String>) -> (r: Vec<String>)
    requires
        lex_sorted(v.deep_view()),
    ensures
        lex_sorted(r.deep_view()),
        r.deep_view().no_duplicates(),
        forall|x: Seq<char>| #[trigger] r.deep_view().contains(x) == v.deep_view().contains(x),
{
    let mut r: Vec<String> = Vec::new();
    let mut i: usize = 0;
    proof {
        assert(v.deep_view().take(0) =~= Seq::<Seq<char>>::empty());
        assert(r.deep_view() =~= Seq::<Seq<char>>::empty());
    }
    while i < v.len()
        invariant
            0 <= i <= v@.len(),
            lex_sorted(v.deep_view()),
            lex_sorted(r.deep_view()),
            r.deep_view().no_duplicates(),
            r.deep_view().len() <= i,
            forall|x: Seq<char>| #[trigger]
                r.deep_view().contains(x) == v.deep_view().take(i as int).contains(x),
            i > 0 ==> r.deep_view().len() > 0 && r.deep_view().last() == v.deep_view()[i - 1],
        decreases v@.len() - i,
    {
        let ghost dv = v.deep_view();
        let ghost rv = r.deep_view();
        let same = if r.len() == 0 {
            false
        } else {
            str_eq(r[r.len() - 1].as_str(), v[i].as_str())
        };
        proof {
            assert(dv.take(i + 1).drop_last() =~= dv.take(i as int));
            assert(dv.take(i + 1).last() == dv[i as int]);
        }
        if !same {
            let ghost pre = r.deep_view();
            let x = v[i].clone();
            r.push(x);
            proof {
                assert(r.deep_view() =~= pre.push(dv[i as int]));
                // the new element is strictly above everything already kept
                assert forall|k: int| 0 <= k < pre.len() implies pre[k] != dv[i as int] by {
                    if pre[k] == dv[i as int] {
                        assert(pre.len() > 0 && i > 0);
                        if k < pre.len() - 1 {
                            assert(lex_le(pre[k], pre[pre.len() - 1]));
                        } else {
                            lemma_lex_le_refl(pre[k]);
                        }
                        assert(lex_le(dv[i - 1], dv[i as int]));
                        lemma_lex_le_antisym(dv[i as int], dv[i - 1]);
                    }
                }
                assert(r.deep_view().no_duplicates());
                assert forall|a: int, b: int| 0 <= a < b < r.deep_view().len() implies lex_le(
                    r.deep_view()[a],
                    r.deep_view()[b],
                ) by {
                    if b == pre.len() && pre.len() > 0 {
                        assert(i > 0);
                        if a < pre.len() - 1 {
                            assert(lex_le(pre[a], pre[pre.len() - 1]));
                        } else {
                            lemma_lex_le_refl(pre[a]);
                        }
                        assert(lex_le(dv[i - 1], dv[i as int]));
                        lemma_lex_le_trans(pre[a], dv[i - 1], dv[i as int]);
                    }
                }
                assert forall|x: Seq<char>| #[trigger]
                    r.deep_view().contains(x) == dv.take(i + 1).contains(x) by {
                    lemma_contains_split(r.deep_view(), x);
                    lemma_contains_split(dv.take(i + 1), x);
                    assert(r.deep_view().drop_last() =~= pre);
                }
            }
        } else {
            proof {
                assert(rv.last() == dv[i as int]);
                assert(rv.contains(dv[i as int])) by {
                    assert(rv[rv.len() - 1] == dv[i as int]);
                }
                assert forall|x: Seq<char>| #[trigger]
                    r.deep_view().contains(x) == dv.take(i + 1).contains(x) by {
                    lemma_contains_split(dv.take(i + 1), x);
                }
            }
        }
        i = i + 1;
    }
    proof {
        assert(v.deep_view().take(v@.len() as int) =~= v.deep_view());
    }
    r
}

/// Lists the rule names a rules directory offers, given its entry names:
/// the reserved documentation files are excluded, and the rest come back
/// sorted and de-duplicated.
pub fn list(entries: &Vec<String>) -> (r: Vec<String>)
    ensures
        lex_sorted(r.deep_view()),
        r.deep_view().no_duplicates(),
        forall|x: Seq<char>| #[trigger]
            r.deep_view().contains(x) == (entries.deep_view().contains(x) && is_listed_name(x)),
{
    broadcast use vstd::seq_lib::to_multiset_contains;

    let filtered = filter_reserved(entries);
    let sorted = sort_strings(&filtered);
    let r = dedup_sorted(&sorted);
    proof {
        assert forall|x: Seq<char>| #[trigger]
            r.deep_view().contains(x) == (entries.deep_view().contains(x) && is_listed_name(
                x,
            )) by {
            lemma_filter_listed_contains(entries.deep_view(), x);
            assert(sorted.deep_view().contains(x) == filtered.deep_view().contains(x)) by {
                vstd::seq_lib::to_multiset_contains(sorted.deep_view(), x);
                vstd::seq_lib::to_multiset_contains(filtered.deep_view(), x);
            }
        }
    }
    r
}

} // verus!
