//! Reading the report printed by the Windows updater script.

use vstd::prelude::*;

use crate::text::{
    char_slice, contains_seq, is_blank, push_char, starts_with, str_contains, str_eq, str_is_blank, str_starts_with, trim,
    trimmed,
};

verus! {

/// What the updater report says so far: whether an update is available and the
/// installed and latest version strings.
pub type ReportFacts = (Option<bool>, Option<Seq<char>>, Option<Seq<char>>);

/// Reads one report line (after trimming it): the two version lines record their
/// trimmed values, the two status lines record whether an update is available.
pub open spec fn apply_report_line(facts: ReportFacts, line: Seq<char>) -> ReportFacts {
    let t = trimmed(line);
    if starts_with(t, "Installed version:"@) {
        (facts.0, Some(trimmed(t.skip(18))), facts.2)
    } else if starts_with(t, "Latest version:"@) {
        (facts.0, facts.1, Some(trimmed(t.skip(15))))
    } else if contains_seq(t, "Incremental update available"@) {
        (Some(true), facts.1, facts.2)
    } else if contains_seq(t, "Already up to date"@) {
        (Some(false), facts.1, facts.2)
    } else {
        facts
    }
}

/// The facts read from the complete lines of `text` (those ended by a line feed),
/// together with the unfinished last line.
pub open spec fn report_scan(text: Seq<char>) -> (Seq<char>, ReportFacts)
    decreases text.len(),
{
    if text.len() == 0 {
        (Seq::empty(), (None, None, None))
    } else {
        let (line, facts) = report_scan(text.drop_last());
        if text.last() == '\n' {
            (Seq::empty(), apply_report_line(facts, line))
        } else {
            (line.push(text.last()), facts)
        }
    }
}

/// The facts of a whole report: every line read in order, and when no status line
/// was seen but both versions were, an update is available exactly when they differ.
pub open spec fn update_report(text: Seq<char>) -> ReportFacts {
    let (line, facts) = report_scan(text);
    let read = apply_report_line(facts, line);
    if read.0 is None && read.1 is Some && read.2 is Some {
        (Some(read.1->0 != read.2->0), read.1, read.2)
    } else {
        read
    }
}

/// The view of the facts held in executable form.
pub open spec fn facts_view(facts: (Option<bool>, Option<String>, Option<String>)) -> ReportFacts {
    (
        facts.0,
        match facts.1 {
            Some(s) => Some(s@),
            None => None,
        },
        match facts.2 {
            Some(s) => Some(s@),
            None => None,
        },
    )
}

fn to_owned_string(s: &str) -> (owned: String)
    ensures
        owned@ == s@,
{
    let mut owned = String::new();
    crate::text::push_str(&mut owned, s);
    owned
}

fn read_report_line(facts: &mut (Option<bool>, Option<String>, Option<String>), line: &str)
    ensures
        facts_view(*final(facts)) == apply_report_line(facts_view(*old(facts)), line@),
{
    let t = trim(line);
    let n = t.unicode_len();
    if str_starts_with(t, "Installed version:") {
        proof {
            reveal_strlit("Installed version:");
        }
        let value = trim(char_slice(t, 18, n));
        assert(t@.subrange(18, n as int) =~= t@.skip(18));
        facts.1 = Some(to_owned_string(value));
    } else if str_starts_with(t, "Latest version:") {
        proof {
            reveal_strlit("Latest version:");
        }
        let value = trim(char_slice(t, 15, n));
        assert(t@.subrange(15, n as int) =~= t@.skip(15));
        facts.2 = Some(to_owned_string(value));
    } else if str_contains(t, "Incremental update available") {
        facts.0 = Some(true);
    } else if str_contains(t, "Already up to date") {
        facts.0 = Some(false);
    }
}

/// Reads `(update_available, installed_version, latest_version)` from the updater's output.
pub fn parse_update_check_output(text: &str) -> (facts: (Option<bool>, Option<String>, Option<String>))
    ensures
        facts_view(facts) == update_report(text@),
{
    let n = text.unicode_len();
    let mut facts: (Option<bool>, Option<String>, Option<String>) = (None, None, None);
    let mut line = String::new();
    let mut i: usize = 0;
    while i < n
        invariant
            n == text@.len(),
            i <= n,
            report_scan(text@.subrange(0, i as int)) == (line@, facts_view(facts)),
        decreases n - i,
    {
        let c = text.get_char(i);
        assert(text@.subrange(0, i + 1).drop_last() =~= text@.subrange(0, i as int));
        if c == '\n' {
            read_report_line(&mut facts, line.as_str());
            line = String::new();
        } else {
            push_char(&mut line, c);
        }
        i = i + 1;
    }
    assert(text@.subrange(0, n as int) =~= text@);
    read_report_line(&mut facts, line.as_str());
    if facts.0.is_none() {
        match (&facts.1, &facts.2) {
            (Some(installed), Some(latest)) => {
                let differ = !str_eq(installed.as_str(), latest.as_str());
                facts.0 = Some(differ);
            },
            _ => {},
        }
    }
    facts
}

/// The install directory given by the user, unless it is missing or blank.
pub fn explicit_install_dir(install_dir: Option<&str>) -> (root: Option<&str>)
    ensures
        match install_dir {
            Some(d) => if is_blank(d@) {
                root is None
            } else {
                root == Some(d)
            },
            None => root is None,
        },
{
    match install_dir {
        Some(d) => if str_is_blank(d) {
            None
        } else {
            Some(d)
        },
        None => None,
    }
}

} // verus!
