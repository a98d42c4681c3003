//! Start-up decisions of the command-line tool: which environment to use, whether to look
//! for a newer release, and what to say about one.

use vstd::prelude::*;
use std::cmp::Ordering;
use crate::config::Environment;
use crate::infra::env_service::u64_text;
use crate::maps::views;
use crate::text::{trim, split_on, join, trim_str, chars_of, string_from_range, split_char, str_eq, concat,
    join_strings};
use crate::infra::env_service::parse_u64_text;

verus! {

/// The dot-separated parts of a version tag: trimmed, without one leading `v`.
pub open spec fn version_parts(tag: Seq<char>) -> Seq<Seq<char>> {
    let t = trim(tag);
    let u = if t.len() > 0 && t[0] == 'v' { t.drop_first() } else { t };
    split_on(u, '.')
}

/// The `(major, minor, patch)` of a tag such as `v1.2.3`; parts after the third are ignored.
pub open spec fn version_of(tag: Seq<char>) -> Option<(u64, u64, u64)> {
    let ps = version_parts(tag);
    if ps.len() >= 3 && u64_text(ps[0]) is Some && u64_text(ps[1]) is Some && u64_text(ps[2]) is Some {
        Some((u64_text(ps[0])->0, u64_text(ps[1])->0, u64_text(ps[2])->0))
    } else {
        None
    }
}

/// Reads `(major, minor, patch)` from a tag such as `v1.2.3` (see `version_of`).
pub fn parse_v_semver(tag: &str) -> (r: Option<(u64, u64, u64)>)
    ensures
        r == version_of(tag@),
{
    let t = trim_str(tag);
    let v = chars_of(t.as_str());
    let start: usize = if v.len() > 0 && v[0] == 'v' { 1 } else { 0 };
    let u = string_from_range(&v, start, v.len());
    assert(u@ =~= (if t@.len() > 0 && t@[0] == 'v' { t@.drop_first() } else { t@ }));
    let parts = split_char(u.as_str(), '.');
    if parts.len() < 3 {
        return None;
    }
    assert(parts@[0]@ == version_parts(tag@)[0]);
    assert(parts@[1]@ == version_parts(tag@)[1]);
    assert(parts@[2]@ == version_parts(tag@)[2]);
    let major = parse_u64_text(parts[0].as_str())?;
    let minor = parse_u64_text(parts[1].as_str())?;
    let patch = parse_u64_text(parts[2].as_str())?;
    Some((major, minor, patch))
}

/// `a` comes before `b` in the order of versions (major, then minor, then patch).
pub open spec fn version_lt(a: (u64, u64, u64), b: (u64, u64, u64)) -> bool {
    a.0 < b.0 || (a.0 == b.0 && (a.1 < b.1 || (a.1 == b.1 && a.2 < b.2)))
}

/// How the versions of two tags compare, when both can be read.
pub fn compare_semver_tags(a: &str, b: &str) -> (r: Option<Ordering>)
    ensures
        match (version_of(a@), version_of(b@)) {
            (Some(x), Some(y)) => r == Some(if version_lt(x, y) {
                Ordering::Less
            } else if x == y {
                Ordering::Equal
            } else {
                Ordering::Greater
            }),
            _ => r is None,
        },
{
    let x = parse_v_semver(a)?;
    let y = parse_v_semver(b)?;
    if x.0 < y.0 || (x.0 == y.0 && (x.1 < y.1 || (x.1 == y.1 && x.2 < y.2))) {
        Some(Ordering::Less)
    } else if x.0 == y.0 && x.1 == y.1 && x.2 == y.2 {
        Some(Ordering::Equal)
    } else {
        Some(Ordering::Greater)
    }
}

/// Whether to look for a newer release on start-up: not in CI, not when disabled, only in an
/// interactive terminal, not for the `version` command, and only when the last check (if
/// any) is at least `interval_days` days old.
pub open spec fn should_check(ci: bool, disabled: bool, terminal: bool, version_command: bool, now: u64, last_checked: Option<u64>, interval_days: u64) -> bool {
    let interval = if interval_days * 86400 > u64::MAX { u64::MAX as int } else { interval_days * 86400 };
    let elapsed = if now >= 0 && last_checked is Some && now >= last_checked->0 { now - last_checked->0 } else { 0 };
    &&& !ci
    &&& !disabled
    &&& terminal
    &&& !version_command
    &&& (last_checked is None || elapsed >= interval)
}

/// Whether to look for a newer release on start-up (see `should_check`).
pub fn should_check_for_updates(ci: bool, disabled: bool, terminal: bool, version_command: bool, now: u64, last_checked: Option<u64>, interval_days: u64) -> (r: bool)
    ensures
        r == should_check(ci, disabled, terminal, version_command, now, last_checked, interval_days),
{
    if ci || disabled || !terminal || version_command {
        return false;
    }
    let interval = match interval_days.checked_mul(86400) {
        Some(v) => v,
        None => u64::MAX,
    };
    match last_checked {
        Some(last) => now.saturating_sub(last) >= interval,
        None => true,
    }
}

pub open spec fn readme_install_url() -> Seq<char> {
    "https://github.com/oleksandrkever-code/meta-definition-sync-cli-rs#install-no-rust-required"@
}

pub open spec fn latest_release_url() -> Seq<char> {
    "https://github.com/oleksandrkever-code/meta-definition-sync-cli-rs/releases/latest"@
}

/// The notice for a newer release: only when the latest tag reads as a later version than
/// the current one.
pub open spec fn update_notice(current: Seq<char>, latest: Seq<char>, release_url: Option<Seq<char>>) -> Option<Seq<char>> {
    let l = trim(latest);
    match (version_of(current), version_of(l)) {
        (Some(x), Some(y)) => if l.len() > 0 && version_lt(x, y) {
            let url = match release_url {
                Some(u) => u,
                None => latest_release_url(),
            };
            Some("Update available: "@ + current + " -> "@ + l + ". See: "@ + readme_install_url() + " (release: "@ + url + ")"@)
        } else {
            None
        },
        _ => None,
    }
}

/// The notice for a newer release (see `update_notice`), given the current tag and the tag and
/// page of the latest release.
pub fn update_message(current: &str, latest_tag: &str, release_url: Option<&str>) -> (r: Option<String>)
    ensures
        match r {
            Some(m) => update_notice(current@, latest_tag@, match release_url {
                Some(u) => Some(u@),
                None => None,
            }) == Some(m@),
            None => update_notice(current@, latest_tag@, match release_url {
                Some(u) => Some(u@),
                None => None,
            }) is None,
        },
{
    let latest = trim_str(latest_tag);
    if latest.as_str().is_empty() {
        return None;
    }
    match compare_semver_tags(current, latest.as_str()) {
        Some(o) => match o {
            Ordering::Less => {
                let url: &str = match release_url {
                    Some(u) => u,
                    None => "https://github.com/oleksandrkever-code/meta-definition-sync-cli-rs/releases/latest",
                };
                let mut out = "Update available: ".to_string();
                out.append(current);
                out.append(" -> ");
                out.append(latest.as_str());
                out.append(". See: ");
                out.append("https://github.com/oleksandrkever-code/meta-definition-sync-cli-rs#install-no-rust-required");
                out.append(" (release: ");
                out.append(url);
                out.append(")");
                Some(out)
            },
            _ => None,
        },
        None => None,
    }
}

/// What to do to choose an environment without asking: the index of the chosen one, or ask.
pub enum EnvironmentChoice {
    Chosen(usize),
    Ask,
}

fn find_named(envs: &[Environment], name: &str) -> (r: Option<usize>)
    ensures
        match r {
            Some(i) => i < envs@.len() && envs@[i as int].name@ == name@ && forall|j: int| 0 <= j < i ==> envs@[j].name@ != name@,
            None => forall|j: int| 0 <= j < envs@.len() ==> envs@[j].name@ != name@,
        },
{
    let mut i: usize = 0;
    while i < envs.len()
        invariant
            i <= envs@.len(),
            forall|j: int| 0 <= j < i ==> envs@[j].name@ != name@,
        decreases envs.len() - i,
    {
        if str_eq(envs[i].name.as_str(), name) {
            return Some(i);
        }
        i = i + 1;
    }
    None
}

/// Chooses the environment to use without asking, when it can: the one requested (an unknown
/// name is an error), else `default`, else the only one; in CI with several environments and
/// none requested it is an error; otherwise the user is asked.
pub fn select_environment(requested: Option<&str>, ci: bool, envs: &[Environment]) -> (r: Result<EnvironmentChoice, String>)
    ensures
        match requested {
            Some(name) => match r {
                Ok(EnvironmentChoice::Chosen(i)) => i < envs@.len() && envs@[i as int].name@ == name@
                    && forall|j: int| 0 <= j < i ==> envs@[j].name@ != name@,
                Ok(EnvironmentChoice::Ask) => false,
                Err(m) => m@ == "Invalid environment \""@ + name@ + "\""@ && forall|j: int| 0 <= j < envs@.len() ==> envs@[j].name@ != name@,
            },
            None => match r {
                Ok(EnvironmentChoice::Chosen(i)) => i < envs@.len() && ((envs@[i as int].name@ == "default"@
                    && forall|j: int| 0 <= j < i ==> envs@[j].name@ != "default"@)
                    || ((forall|j: int| 0 <= j < envs@.len() ==> envs@[j].name@ != "default"@) && envs@.len() == 1 && i == 0)),
                Ok(EnvironmentChoice::Ask) => !ci && envs@.len() != 1 && forall|j: int| 0 <= j < envs@.len() ==> envs@[j].name@ != "default"@,
                Err(m) => ci && envs@.len() != 1 && (forall|j: int| 0 <= j < envs@.len() ==> envs@[j].name@ != "default"@)
                    && m@ == "--environment is required in CI mode. Available: "@ + join(envs@.map_values(|e: Environment| e.name@), ", "@),
            },
        },
{
    if let Some(name) = requested {
        return match find_named(envs, name) {
            Some(i) => Ok(EnvironmentChoice::Chosen(i)),
            None => {
                let a = concat("Invalid environment \"", name);
                Err(concat(a.as_str(), "\""))
            },
        };
    }
    if let Some(i) = find_named(envs, "default") {
        return Ok(EnvironmentChoice::Chosen(i));
    }
    if envs.len() == 1 {
        return Ok(EnvironmentChoice::Chosen(0));
    }
    if ci {
        let mut names: Vec<String> = Vec::new();
        let mut i: usize = 0;
        while i < envs.len()
            invariant
                i <= envs@.len(),
                names@.map_values(|x: String| x@) == envs@.take(i as int).map_values(|e: Environment| e.name@),
            decreases envs.len() - i,
        {
            let c = envs[i].name.clone();
            let ghost before = names@;
            names.push(c);
            proof {
                crate::model::lemma_map_values_push(before, c, |x: String| x@);
                crate::model::lemma_take_push(envs@, i as int);
                crate::model::lemma_map_values_push(envs@.take(i as int), envs@[i as int], |e: Environment| e.name@);
            }
            i = i + 1;
        }
        assert(envs@.take(envs@.len() as int) =~= envs@);
        let joined = join_strings(&names, ", ");
        return Err(concat("--environment is required in CI mode. Available: ", joined.as_str()));
    }
    Ok(EnvironmentChoice::Ask)
}


/// The order of versions is a strict total order: of two different versions exactly one comes
/// first, so comparing two tags the other way round gives the reverse answer.
pub proof fn lemma_version_order_total(x: (u64, u64, u64), y: (u64, u64, u64))
    ensures
        !(version_lt(x, y) && version_lt(y, x)),
        x != y ==> (version_lt(x, y) || version_lt(y, x)),
        !version_lt(x, x),
{
}
} // verus!
