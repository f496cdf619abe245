//! What the program says of itself.

use crate::text::push_text;
use vstd::prelude::*;

verus! {

/// The revision a program was built from, or `NA` where it is not known.
pub open spec fn revision(commit: Option<&str>) -> Seq<char> {
    match commit {
        Some(id) => id@,
        None => "NA"@,
    }
}

/// The full account: one line each for the name, the version, the revision,
/// the time of the build, the profile and the features.
pub open spec fn info_text(
    name: Seq<char>,
    version: Seq<char>,
    commit: Option<&str>,
    build_date: Seq<char>,
    profile: Seq<char>,
    features: Seq<char>,
) -> Seq<char> {
    "application: "@ + name + seq!['\n'] + "version: "@ + version + seq!['\n'] + "commit: "@
        + revision(commit) + seq!['\n'] + "build date: "@ + build_date + seq!['\n'] + "profile: "@
        + profile + seq!['\n'] + "features: "@ + features + seq!['\n']
}

/// The short account: the name on one line; the version and, in brackets, the
/// revision and the day of the build on the next.
pub open spec fn short_info_text(
    name: Seq<char>,
    version: Seq<char>,
    commit: Option<&str>,
    build_day: Seq<char>,
) -> Seq<char> {
    name + seq!['\n'] + version + " ("@ + revision(commit) + ", "@ + build_day + ")"@ + seq!['\n']
}

/// Appends a label, a value and a line feed.
fn push_entry(out: &mut String, label: &str, value: &str)
    ensures
        final(out)@ == old(out)@ + label@ + value@ + seq!['\n'],
{
    push_text(out, label);
    push_text(out, value);
    out.push('\n');
    assert(out@ =~= old(out)@ + label@ + value@ + seq!['\n']);
}

/// The full account of a program.
pub fn info(
    name: &str,
    version: &str,
    commit: Option<&str>,
    build_date: &str,
    profile: &str,
    features: &str,
) -> (text: String)
    ensures
        text@ == info_text(name@, version@, commit, build_date@, profile@, features@),
{
    let id: &str = match commit {
        Some(id) => id,
        None => "NA",
    };
    let mut text = String::new();
    push_entry(&mut text, "application: ", name);
    push_entry(&mut text, "version: ", version);
    push_entry(&mut text, "commit: ", id);
    push_entry(&mut text, "build date: ", build_date);
    push_entry(&mut text, "profile: ", profile);
    push_entry(&mut text, "features: ", features);
    assert(text@ =~= info_text(name@, version@, commit, build_date@, profile@, features@));
    text
}

/// The short account of a program.
pub fn short_info(name: &str, version: &str, commit: Option<&str>, build_day: &str) -> (text:
    String)
    ensures
        text@ == short_info_text(name@, version@, commit, build_day@),
{
    let id: &str = match commit {
        Some(id) => id,
        None => "NA",
    };
    let mut text = String::new();
    push_text(&mut text, name);
    text.push('\n');
    push_text(&mut text, version);
    push_text(&mut text, " (");
    push_text(&mut text, id);
    push_text(&mut text, ", ");
    push_text(&mut text, build_day);
    push_text(&mut text, ")");
    text.push('\n');
    assert(text@ =~= short_info_text(name@, version@, commit, build_day@));
    text
}

} // verus!
