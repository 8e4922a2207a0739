//! The line printer and the per-line half of the stream processor: given a
//! line, its number, and the engine's answers for it, exactly which output
//! lines are emitted, and how the per-source outcomes fold into the run's
//! outcome.

use vstd::prelude::*;

use crate::text::{dec_str, join_strings, join_with, usize_to_string};

verus! {

/// The display-mode flags of a run, with the display name of the source
/// being processed (empty for standard input). All formatting decisions are
/// made here and nowhere else.
pub struct Printer {
    pub filename: String,
    pub same_line: bool,
    pub matches_only: bool,
    pub line_numbers: bool,
}

impl Printer {
    pub fn new(filename: &str, same_line: bool, matches_only: bool, line_numbers: bool) -> (r:
        Printer)
        ensures
            r.filename@ == filename@,
            r.same_line == same_line,
            r.matches_only == matches_only,
            r.line_numbers == line_numbers,
    {
        Printer {
            filename: String::from_str(filename),
            same_line: same_line,
            matches_only: matches_only,
            line_numbers: line_numbers,
        }
    }

    /// The prefix of every emitted line: the source name and the 1-based
    /// line number when line numbers are on, nothing otherwise; on standard
    /// input (empty source name) the name and its separating colon are
    /// dropped.
    pub open spec fn prefix_spec(self, line_number: nat) -> Seq<char> {
        if self.line_numbers {
            if self.filename@.len() > 0 {
                self.filename@ + ":"@ + dec_str(line_number) + "\t"@
            } else {
                dec_str(line_number) + "\t"@
            }
        } else {
            Seq::<char>::empty()
        }
    }

    pub fn get_line_prefix(&self, line_number: usize) -> (r: String)
        ensures
            r@ == self.prefix_spec(line_number as nat),
    {
        if self.line_numbers {
            if !self.filename.as_str().is_empty() {
                let mut r = self.filename.clone();
                r.append(":");
                let n = usize_to_string(line_number);
                r.append(n.as_str());
                r.append("\t");
                r
            } else {
                let mut r = usize_to_string(line_number);
                r.append("\t");
                r
            }
        } else {
            String::new()
        }
    }

    /// One emitted output line: the prefix followed by the content.
    pub open spec fn line_spec(self, content: Seq<char>, line_number: nat) -> Seq<char> {
        self.prefix_spec(line_number) + content
    }

    pub fn render_line(&self, content: &str, line_number: usize) -> (r: String)
        ensures
            r@ == self.line_spec(content@, line_number as nat),
    {
        let mut r = self.get_line_prefix(line_number);
        r.append(content);
        r
    }

    /// The lines emitted for the match occurrences of one input line: with
    /// no occurrence nothing is emitted; in same-line mode one line joining
    /// the occurrences with single spaces; otherwise one line per
    /// occurrence, each carrying the same prefix.
    pub open spec fn matches_output_spec(self, matches: Seq<Seq<char>>, line_number: nat) -> Seq<
        Seq<char>,
    > {
        if matches.len() == 0 {
            Seq::<Seq<char>>::empty()
        } else if self.same_line {
            seq![self.line_spec(join_with(matches, " "@), line_number)]
        } else {
            matches.map_values(|m: Seq<char>| self.line_spec(m, line_number))
        }
    }

    pub fn show_matches(&self, matches: &Vec<String>, line_number: usize) -> (r: Vec<String>)
        ensures
            r.deep_view() == self.matches_output_spec(matches.deep_view(), line_number as nat),
    {
        let mut r: Vec<String> = Vec::new();
        if matches.len() == 0 {
            proof {
                assert(r.deep_view() =~= Seq::<Seq<char>>::empty());
            }
            return r;
        }
        if self.same_line {
            let joined = join_strings(matches, " ");
            let line = self.render_line(joined.as_str(), line_number);
            r.push(line);
            proof {
                assert(r.deep_view() =~= self.matches_output_spec(
                    matches.deep_view(),
                    line_number as nat,
                ));
            }
        } else {
            let ghost dv = matches.deep_view();
            let mut i: usize = 0;
            proof {
                assert(r.deep_view() =~= dv.take(0).map_values(
                    |m: Seq<char>| self.line_spec(m, line_number as nat),
                ));
            }
            while i < matches.len()
                invariant
                    0 <= i <= matches@.len(),
                    dv == matches.deep_view(),
                    r.deep_view() == dv.take(i as int).map_values(
                        |m: Seq<char>| self.line_spec(m, line_number as nat),
                    ),
                decreases matches@.len() - i,
            {
                let ghost pre = r.deep_view();
                let line = self.render_line(matches[i].as_str(), line_number);
                r.push(line);
                proof {
                    assert(r.deep_view() =~= pre.push(self.line_spec(
                        dv[i as int],
                        line_number as nat,
                    )));
                    assert(dv.take(i + 1).map_values(
                        |m: Seq<char>| self.line_spec(m, line_number as nat),
                    ) =~= pre.push(self.line_spec(dv[i as int], line_number as nat)));
                }
                i = i + 1;
            }
            proof {
                assert(dv.take(matches@.len() as int) =~= dv);
            }
        }
        r
    }

    /// What one input line turns into, from the engine's answers for it:
    /// `has_match` says whether the pattern matches anywhere in the line,
    /// and `matches` holds every match occurrence in left-to-right order.
    /// Outside matches-only mode a matching line is emitted in full exactly
    /// once; in matches-only mode the occurrences are emitted as
    /// `matches_output_spec` says.
    pub open spec fn render_spec(
        self,
        content: Seq<char>,
        has_match: bool,
        matches: Seq<Seq<char>>,
        line_number: nat,
    ) -> Seq<Seq<char>> {
        if self.matches_only {
            self.matches_output_spec(matches, line_number)
        } else if has_match {
            seq![self.line_spec(content, line_number)]
        } else {
            Seq::<Seq<char>>::empty()
        }
    }

    /// Renders one input line. The regex engine's answers are taken as
    /// arguments, so this function is exact for every value they may take.
    pub fn render(
        &self,
        content: &str,
        has_match: bool,
        matches: &Vec<String>,
        line_number: usize,
    ) -> (r: Vec<String>)
        ensures
            r.deep_view() == self.render_spec(
                content@,
                has_match,
                matches.deep_view(),
                line_number as nat,
            ),
    {
        if self.matches_only {
            self.show_matches(matches, line_number)
        } else {
            let mut r: Vec<String> = Vec::new();
            if has_match {
                let line = self.render_line(content, line_number);
                r.push(line);
                proof {
                    assert(r.deep_view() =~= seq![
                        self.line_spec(content@, line_number as nat),
                    ]);
                }
            } else {
                proof {
                    assert(r.deep_view() =~= Seq::<Seq<char>>::empty());
                }
            }
            r
        }
    }
}

/// Folds the per-source outcomes of a processing run into the overall
/// outcome: the run succeeds exactly when every source succeeded.
pub fn overall_success(outcomes: &Vec<bool>) -> (r: bool)
    ensures
        r == forall|i: int| 0 <= i < outcomes@.len() ==> outcomes@[i],
{
    let mut i: usize = 0;
    while i < outcomes.len()
        invariant
            0 <= i <= outcomes@.len(),
            forall|j: int| 0 <= j < i ==> outcomes@[j],
        decreases outcomes@.len() - i,
    {
        if !outcomes[i] {
            return false;
        }
        i = i + 1;
    }
    true
}

} // verus!
