//! The command that brings the program up to date.
use crate::data::wire;
use crate::text;
use vstd::prelude::*;

verus! {

/// Who publishes the program.
pub const REPO_OWNER: &'static str = "wnzzer";

/// Where it is published.
pub const REPO_NAME: &'static str = "stockrs";

/// A version of three numbers, with dots between them.
pub open spec fn version_text(v: (u64, u64, u64)) -> Seq<char> {
    text::decimal(v.0 as nat) + seq!['.'] + text::decimal(v.1 as nat) + seq!['.'] + text::decimal(
        v.2 as nat,
    )
}

/// One version comes after another: by its first number, then by its second, then by its
/// third.
pub open spec fn comes_after(a: (u64, u64, u64), b: (u64, u64, u64)) -> bool {
    a.0 > b.0 || (a.0 == b.0 && (a.1 > b.1 || (a.1 == b.1 && a.2 > b.2)))
}

/// Whether `other` is a later version than `current`, as
/// `self_update::version::bump_is_greater` says; none where one of them is no version.
pub uninterp spec fn later_version(current: Seq<char>, other: Seq<char>) -> Option<bool>;

/// `self_update::version::bump_is_greater`: whether `other` is a later version than
/// `current`, by the precedence of semantic versions; none where one of them is no such
/// version. Versions of three numbers are told apart by their numbers; of others the result
/// is only named.
#[verifier::external_body]
fn bump_is_greater(current: &str, other: &str) -> (r: Option<bool>)
    ensures
        r == later_version(current@, other@),
        forall|a: (u64, u64, u64), b: (u64, u64, u64)|
            current@ == #[trigger] version_text(a) && other@ == #[trigger] version_text(b) ==> r
                == Some(comes_after(b, a)),
{
    self_update::version::bump_is_greater(current, other).ok()
}

/// What is said of the latest version.
pub open spec fn announced(current: Seq<char>, latest: Seq<char>, later: Option<bool>) -> Seq<
    Seq<char>,
> {
    if later == Some(true) {
        seq!["发现新版本：v"@ + current + " → v"@ + latest, "运行 `stockrs self-update` 更新"@]
    } else {
        seq!["已是最新版本 v"@ + current]
    }
}

/// What is said of the latest version, by whether it is a later one.
pub fn announce_later(current: &str, latest: &str, later: Option<bool>) -> (r: Vec<String>)
    ensures
        text::texts(r@) == announced(current@, latest@, later),
{
    let newer = match later {
        Some(b) => b,
        None => false,
    };
    let mut out: Vec<String> = Vec::new();
    if newer {
        let mut line = wire::message("发现新版本：v", current, " → v");
        line.append(latest);
        out.push(line);
        out.push("运行 `stockrs self-update` 更新".to_owned());
    } else {
        out.push(up_to_date(current));
    }
    assert(text::texts(out@) =~= announced(current@, latest@, later));
    out
}

/// What is said of the latest version. Of two versions of three numbers the one with the
/// larger numbers is the later.
pub fn announce(current: &str, latest: &str) -> (r: Vec<String>)
    ensures
        text::texts(r@) == announced(current@, latest@, later_version(current@, latest@)),
        forall|a: (u64, u64, u64), b: (u64, u64, u64)|
            current@ == #[trigger] version_text(a) && latest@ == #[trigger] version_text(b)
                ==> text::texts(r@) == announced(current@, latest@, Some(comes_after(b, a))),
{
    announce_later(current, latest, bump_is_greater(current, latest))
}

/// What is said where the program is up to date.
pub fn up_to_date(current: &str) -> (r: String)
    ensures
        r@ == "已是最新版本 v"@ + current@,
{
    wire::both("已是最新版本 v", current)
}

/// What is said when the program has been replaced.
pub fn updated(current: &str, version: &str) -> (r: String)
    ensures
        r@ == "已更新：v"@ + current@ + " → "@ + version@,
{
    let mut out = wire::message("已更新：v", current, " → ");
    out.append(version);
    out
}

/// Of two versions one comes after the other or they are the same, and a version with a
/// number raised comes after, whatever stands behind that number.
pub proof fn versions_are_in_order(a: (u64, u64, u64), b: (u64, u64, u64), c: (u64, u64, u64))
    ensures
        !comes_after(a, a),
        comes_after(a, b) ==> !comes_after(b, a),
        a == b || comes_after(a, b) || comes_after(b, a),
        comes_after(a, b) && comes_after(b, c) ==> comes_after(a, c),
        b.0 < a.0 ==> comes_after(a, b),
        a.0 == b.0 && b.1 < a.1 ==> comes_after(a, b),
        a.0 == b.0 && a.1 == b.1 && b.2 < a.2 ==> comes_after(a, b),
{
}

} // verus!
