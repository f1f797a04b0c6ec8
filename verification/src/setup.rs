//! What is settled before the daemon runs: the root of the cgroup hierarchy
//! and the pid file.

use vstd::prelude::*;

use crate::cgroupv2;
use crate::cgroupv2::{render_line, KnobWrite};
use crate::path;
use crate::path::{parent_path, same_path};
use crate::text;
use crate::text::{after_prefix, drop_suffix, owned, split_lines, trimmed};

verus! {

/// A cgroup path without the directory of a tier at its end, which a previous
/// run may have left there. The suffixes are taken off one after the other.
pub open spec fn without_tiers(p: Seq<char>) -> Seq<char> {
    let a = text::without_suffix(p, "/rt"@);
    let b = text::without_suffix(a, "/interactive"@);
    let c = text::without_suffix(b, "/system"@);
    let d = text::without_suffix(c, "/background"@);
    let e = text::without_suffix(d, "/idle"@);
    text::without_suffix(e, "/swapstorm"@)
}

/// The directories that the first `n` lines of a `cgroup` file name, each
/// without the directory of a tier.
pub open spec fn candidates_among(lines: Seq<Seq<char>>, n: nat) -> Seq<Seq<char>>
    decreases n,
{
    if n == 0 {
        Seq::empty()
    } else {
        let done = candidates_among(lines, (n - 1) as nat);
        match text::strip_prefix(lines[n - 1], "0::"@) {
            Some(raw) => done.push("/sys/fs/cgroup"@ + without_tiers(text::trim(raw))),
            None => done,
        }
    }
}

/// The directories that may have been delegated to the daemon, from the text
/// of its own `cgroup` file.
pub fn delegated_candidates(content: &str) -> (r: Vec<String>)
    ensures
        ({
            let l = text::lines(content@);
            text::texts(r@) == candidates_among(l, l.len())
        }),
{
    let all = split_lines(content);
    let ghost l = text::lines(content@);
    assert(all@.len() == text::texts(all@).len());
    let mut r: Vec<String> = Vec::new();
    let mut i: usize = 0;
    assert(text::texts(r@) =~= Seq::empty());
    while i < all.len()
        invariant
            l == text::lines(content@),
            text::texts(all@) == l,
            all@.len() == l.len(),
            i <= all@.len(),
            text::texts(r@) == candidates_among(l, i as nat),
        decreases all@.len() - i,
    {
        assert(all@[i as int]@ == l[i as int]);
        match after_prefix(all[i].as_str(), "0::") {
            Some(raw) => {
                let p = trimmed(raw.as_str());
                let a = drop_suffix(p.as_str(), "/rt");
                let b = drop_suffix(a.as_str(), "/interactive");
                let c = drop_suffix(b.as_str(), "/system");
                let d = drop_suffix(c.as_str(), "/background");
                let e = drop_suffix(d.as_str(), "/idle");
                let clean = drop_suffix(e.as_str(), "/swapstorm");
                let mut full: String = String::new();
                full.append("/sys/fs/cgroup");
                full.append(clean.as_str());
                assert(full@ =~= "/sys/fs/cgroup"@ + without_tiers(text::trim(raw@)));
                let ghost before = text::texts(r@);
                r.push(full);
                assert(text::texts(r@) =~= before.push(full@));
            },
            None => {},
        }
        i = i + 1;
    }
    r
}

/// The first position at or after `i` that exists, or the number of
/// positions.
pub open spec fn first_existing(exists_: Seq<bool>, i: int) -> int
    decreases exists_.len() - i,
{
    if i >= exists_.len() {
        exists_.len() as int
    } else if exists_[i] {
        i
    } else {
        first_existing(exists_, i + 1)
    }
}

/// The directory that was delegated to the daemon: the first candidate that
/// exists.
pub fn read_delegated_cgroup(candidates: &Vec<String>, existing: &Vec<bool>) -> (r: Option<String>)
    requires
        candidates@.len() == existing@.len(),
    ensures
        ({
            let at = first_existing(existing@, 0);
            match r {
                Some(p) => at < candidates@.len() && p@ == candidates@[at]@,
                None => at == candidates@.len(),
            }
        }),
{
    let mut i: usize = 0;
    while i < existing.len()
        invariant
            candidates@.len() == existing@.len(),
            i <= existing@.len(),
            first_existing(existing@, 0) == first_existing(existing@, i as int),
        decreases existing@.len() - i,
    {
        if existing[i] {
            return Some(owned(candidates[i].as_str()));
        }
        i = i + 1;
    }
    None
}

/// Where the hierarchy of the daemon is to be.
#[derive(Clone, Debug, PartialEq, Eq)]
pub enum RootChoice {
    /// In the directory that was delegated to the daemon.
    Delegated(String),
    /// In the directory that the configuration names.
    Configured(String),
    /// In a directory that the daemon makes itself.
    Direct,
}

/// Whether a directory is another than the root of the whole cgroup file
/// system.
pub open spec fn not_the_root(dir: Seq<char>) -> bool {
    !path::same_path_text(dir, "/sys/fs/cgroup"@)
}

/// Where the hierarchy of the daemon is to be.
///
/// A delegated directory is used; without one the configured directory is
/// used, and without that one the daemon makes its own. Neither may be the root
/// of the whole cgroup file system, which belongs to the session manager.
pub fn setup_cgroup_root(delegated: Option<String>, configured: Option<String>) -> (r: RootChoice)
    ensures
        ({
            let delegated_is_fit = delegated matches Some(d) && not_the_root(d@);
            let configured_is_fit = configured matches Some(c) && not_the_root(c@);
            match r {
                RootChoice::Delegated(p) => delegated_is_fit && p@ == delegated->0@,
                RootChoice::Configured(p) => !delegated_is_fit && configured_is_fit && p@
                    == configured->0@,
                RootChoice::Direct => !delegated_is_fit && !configured_is_fit,
            }
        }),
{
    if let Some(d) = delegated {
        if !same_path(d.as_str(), "/sys/fs/cgroup") {
            return RootChoice::Delegated(d);
        }
    }
    if let Some(c) = configured {
        if !same_path(c.as_str(), "/sys/fs/cgroup") {
            return RootChoice::Configured(c);
        }
    }
    RootChoice::Direct
}

/// The pid file: the directory to create, if there is one, and the write.
pub fn write_pid_file(pid_file: &str, pid: u32) -> (r: (Option<String>, KnobWrite))
    ensures
        text::opt_text(r.0) == path::parent(pid_file@),
        r.1@ == (pid_file@, cgroupv2::number_line(pid as nat)),
{
    (
        parent_path(pid_file),
        KnobWrite { path: owned(pid_file), value: render_line(pid as u64) },
    )
}

proof fn lemma_other_ending(p: Seq<char>, own: Seq<char>, other: Seq<char>, k: int)
    requires
        0 <= k < own.len(),
        k < other.len(),
        own[own.len() - 1 - k] != other[other.len() - 1 - k],
    ensures
        !text::ends_with(p + own, other),
{
    let s = p + own;
    if text::ends_with(s, other) {
        let tail = s.subrange(s.len() - other.len(), s.len() as int);
        assert(tail[other.len() - 1 - k] == s[s.len() - 1 - k]);
        assert(s[s.len() - 1 - k] == own[own.len() - 1 - k]);
    }
}

/// Whether a path ends in the name of a tier.
pub open spec fn ends_in_a_tier(p: Seq<char>) -> bool {
    ||| text::ends_with(p, "/rt"@)
    ||| text::ends_with(p, "/interactive"@)
    ||| text::ends_with(p, "/system"@)
    ||| text::ends_with(p, "/background"@)
    ||| text::ends_with(p, "/idle"@)
    ||| text::ends_with(p, "/swapstorm"@)
}

/// A process in a tier leads to the cgroup that the tier is in, and a process
/// in no tier to its own.
pub proof fn tier_leads_to_its_root(p: Seq<char>)
    requires
        !ends_in_a_tier(p),
    ensures
        without_tiers(p) == p,
        without_tiers(p + "/rt"@) == p,
        without_tiers(p + "/interactive"@) == p,
        without_tiers(p + "/system"@) == p,
        without_tiers(p + "/background"@) == p,
        without_tiers(p + "/idle"@) == p,
        without_tiers(p + "/swapstorm"@) == p,
{
    reveal_strlit("/rt");
    reveal_strlit("/interactive");
    reveal_strlit("/system");
    reveal_strlit("/background");
    reveal_strlit("/idle");
    reveal_strlit("/swapstorm");
    text::parts_are_found(p, "/rt"@, Seq::empty());
    text::parts_are_found(p, "/interactive"@, Seq::empty());
    text::parts_are_found(p, "/system"@, Seq::empty());
    text::parts_are_found(p, "/background"@, Seq::empty());
    text::parts_are_found(p, "/idle"@, Seq::empty());
    text::parts_are_found(p, "/swapstorm"@, Seq::empty());
    lemma_other_ending(p, "/interactive"@, "/rt"@, 0);
    lemma_other_ending(p, "/system"@, "/rt"@, 0);
    lemma_other_ending(p, "/system"@, "/interactive"@, 0);
    lemma_other_ending(p, "/background"@, "/rt"@, 0);
    lemma_other_ending(p, "/background"@, "/interactive"@, 0);
    lemma_other_ending(p, "/background"@, "/system"@, 0);
    lemma_other_ending(p, "/idle"@, "/rt"@, 0);
    lemma_other_ending(p, "/idle"@, "/interactive"@, 1);
    lemma_other_ending(p, "/idle"@, "/system"@, 0);
    lemma_other_ending(p, "/idle"@, "/background"@, 0);
    lemma_other_ending(p, "/swapstorm"@, "/rt"@, 0);
    lemma_other_ending(p, "/swapstorm"@, "/interactive"@, 0);
    lemma_other_ending(p, "/swapstorm"@, "/system"@, 1);
    lemma_other_ending(p, "/swapstorm"@, "/background"@, 0);
    lemma_other_ending(p, "/swapstorm"@, "/idle"@, 0);
}

/// Each line of the unified hierarchy gives a candidate, below the place where
/// cgroups are mounted; every other line gives none.
pub proof fn unified_lines_give_candidates(
    lines: Seq<Seq<char>>,
    n: nat,
    place: Seq<char>,
)
    requires
        0 < n <= lines.len(),
    ensures
        candidates_among(lines, 0).len() == 0,
        lines[n - 1] == "0::"@ + place && text::trim(place) == place && !ends_in_a_tier(place)
            ==> candidates_among(lines, n) == candidates_among(lines, (n - 1) as nat).push(
            "/sys/fs/cgroup"@ + place,
        ),
        !text::starts_with(lines[n - 1], "0::"@) ==> candidates_among(lines, n)
            == candidates_among(lines, (n - 1) as nat),
{
    text::parts_are_found(Seq::empty(), "0::"@, place);
    if !ends_in_a_tier(place) {
        tier_leads_to_its_root(place);
    }
}

/// The first candidate that exists is taken.
pub proof fn first_that_exists_is_taken(existing: Seq<bool>, i: int, k: int)
    requires
        0 <= i <= existing.len(),
    ensures
        i <= first_existing(existing, i) <= existing.len(),
        i <= k < first_existing(existing, i) ==> !existing[k],
        first_existing(existing, i) < existing.len() ==> existing[first_existing(existing, i)],
    decreases existing.len() - i,
{
    if i < existing.len() && !existing[i] {
        first_that_exists_is_taken(existing, i + 1, k);
    }
}

/// The place where cgroups are mounted is never taken as a root, written with
/// a slash at its end or without; what lies below it is.
pub proof fn mount_point_is_no_root(name: Seq<char>)
    requires
        name.len() > 0,
        !name.contains('/'),
        name != seq!['.'],
    ensures
        !not_the_root("/sys/fs/cgroup"@),
        !not_the_root("/sys/fs/cgroup"@.push('/')),
        not_the_root("/sys/fs/cgroup"@.push('/') + name),
{
    reveal_strlit("/sys/fs/cgroup");
    let mount = "/sys/fs/cgroup"@;
    path::trailing_slash_means_nothing(mount);
    path::same_paths_have_the_same_components(mount, mount.push('/'));
    path::joined_name_comes_last(mount, name);
    assert(name[0] != '/') by {
        assert(name.contains(name[0]));
    }
    assert(mount.last() != '/');
    path::joining_puts_one_slash(mount, name);
    assert(path::components(mount.push('/') + name).len() == path::components(mount).len() + 1);
}

} // verus!
