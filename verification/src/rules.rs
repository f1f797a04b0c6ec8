//! Rule engine.
//!
//! A rule has a set of match predicates, all of which must hold, and an action
//! to apply when they do. Rules are ordered by priority, highest first; the
//! first match wins unless the rule says to continue, and then the fields that
//! are still open are taken from the rules that match further down.
//!
//! Profiles support inheritance: a profile takes the action of its parent and
//! overrides it with its own fields.

use vstd::prelude::*;

use crate::info::{ProcessInfo, ProcessView, SchedPolicy};
use crate::path;
use crate::path::{file_extension, same_path};
use crate::text;
use crate::text::{
    chars_of, has_prefix, has_substring, join_with, listed, owned, owned_all, owned_opt, same,
};

verus! {

// ---------------------------------------------------------------------------
// Wildcards
// ---------------------------------------------------------------------------

/// Whether the pattern matches the whole text: `*` stands for any run of
/// characters, the empty one included, `?` for exactly one character, and
/// every other character for itself.
pub open spec fn glob(pattern: Seq<char>, s: Seq<char>) -> bool
    decreases pattern.len(), s.len(),
{
    if pattern.len() == 0 {
        s.len() == 0
    } else if pattern[0] == '*' {
        glob(pattern.skip(1), s) || (s.len() > 0 && glob(pattern, s.skip(1)))
    } else {
        s.len() > 0 && (pattern[0] == '?' || pattern[0] == s[0]) && glob(
            pattern.skip(1),
            s.skip(1),
        )
    }
}

/// Whether a pattern matches a text: `wildmatch::WildMatch::new` and
/// `wildmatch::WildMatch::matches`.
///
/// The whole text has to match; `*` matches any run of characters and `?` any
/// single character, and nothing is escaped.
#[verifier::external_body]
pub(crate) fn wild_matches(pattern: &str, s: &str) -> (r: bool)
    ensures
        r == glob(pattern@, s@),
{
    wildmatch::WildMatch::new(pattern).matches(s)
}

// ---------------------------------------------------------------------------
// Rule files
// ---------------------------------------------------------------------------

/// The predicates of a rule as they stand in a rule file.
#[derive(Clone, Debug)]
pub struct MatchToml {
    pub comm: Vec<String>,
    pub comm_prefix: Vec<String>,
    pub cmdline_contains: Vec<String>,
    pub exe_path: Vec<String>,
    pub uid: Vec<u32>,
    pub env_set: Vec<String>,
    pub min_threads: Option<u32>,
    pub min_rss_mb: Option<u64>,
    pub parent_comm: Vec<String>,
    pub cgroup_path_contains: Vec<String>,
    /// A wildcard pattern, or a path that has to match exactly.
    pub cgroup_path: Option<String>,
}

impl Default for MatchToml {
    fn default() -> (r: MatchToml)
        ensures
            r.comm@.len() == 0,
            r.comm_prefix@.len() == 0,
            r.cmdline_contains@.len() == 0,
            r.exe_path@.len() == 0,
            r.uid@.len() == 0,
            r.env_set@.len() == 0,
            r.min_threads is None,
            r.min_rss_mb is None,
            r.parent_comm@.len() == 0,
            r.cgroup_path_contains@.len() == 0,
            r.cgroup_path is None,
    {
        MatchToml {
            comm: Vec::new(),
            comm_prefix: Vec::new(),
            cmdline_contains: Vec::new(),
            exe_path: Vec::new(),
            uid: Vec::new(),
            env_set: Vec::new(),
            min_threads: None,
            min_rss_mb: None,
            parent_comm: Vec::new(),
            cgroup_path_contains: Vec::new(),
            cgroup_path: None,
        }
    }
}

/// The action of a rule or profile as it stands in a rule file.
#[derive(Clone, Debug)]
pub struct ActionToml {
    pub cgroup: Option<String>,
    pub nice: Option<i8>,
    pub sched_policy: Option<String>,
    pub sched_priority: Option<u8>,
    pub oom_score_adj: Option<i32>,
    pub io_weight: Option<u32>,
    pub recheck_secs: Option<u64>,
    pub apply_to_children: Option<bool>,
    pub script: Option<String>,
    pub continue_: Option<bool>,
}

/// What an `ActionToml` says.
#[verifier::ext_equal]
pub struct ActionTomlView {
    pub cgroup: Option<Seq<char>>,
    pub nice: Option<i8>,
    pub sched_policy: Option<Seq<char>>,
    pub sched_priority: Option<u8>,
    pub oom_score_adj: Option<i32>,
    pub io_weight: Option<u32>,
    pub recheck_secs: Option<u64>,
    pub apply_to_children: Option<bool>,
    pub script: Option<Seq<char>>,
    pub continue_: Option<bool>,
}

impl View for ActionToml {
    type V = ActionTomlView;

    open spec fn view(&self) -> ActionTomlView {
        ActionTomlView {
            cgroup: text::opt_text(self.cgroup),
            nice: self.nice,
            sched_policy: text::opt_text(self.sched_policy),
            sched_priority: self.sched_priority,
            oom_score_adj: self.oom_score_adj,
            io_weight: self.io_weight,
            recheck_secs: self.recheck_secs,
            apply_to_children: self.apply_to_children,
            script: text::opt_text(self.script),
            continue_: self.continue_,
        }
    }
}

impl Default for ActionToml {
    fn default() -> (r: ActionToml)
        ensures
            r@ == (ActionTomlView {
                cgroup: None,
                nice: None,
                sched_policy: None,
                sched_priority: None,
                oom_score_adj: None,
                io_weight: None,
                recheck_secs: None,
                apply_to_children: None,
                script: None,
                continue_: None,
            }),
    {
        ActionToml {
            cgroup: None,
            nice: None,
            sched_policy: None,
            sched_priority: None,
            oom_score_adj: None,
            io_weight: None,
            recheck_secs: None,
            apply_to_children: None,
            script: None,
            continue_: None,
        }
    }
}

impl ActionToml {
    /// A copy.
    pub fn copied(&self) -> (r: ActionToml)
        ensures
            r@ == self@,
    {
        ActionToml {
            cgroup: owned_opt(&self.cgroup),
            nice: self.nice,
            sched_policy: owned_opt(&self.sched_policy),
            sched_priority: self.sched_priority,
            oom_score_adj: self.oom_score_adj,
            io_weight: self.io_weight,
            recheck_secs: self.recheck_secs,
            apply_to_children: self.apply_to_children,
            script: owned_opt(&self.script),
            continue_: self.continue_,
        }
    }
}

/// A rule as it stands in a rule file.
#[derive(Clone, Debug)]
pub struct RuleToml {
    pub name: String,
    pub priority: i32,
    pub match_: MatchToml,
    pub action: ActionToml,
    pub continue_: bool,
}

/// The priority of a rule that names none.
pub fn default_priority() -> (r: i32)
    ensures
        r == 50,
{
    50
}

/// A profile as it stands in a rule file.
#[derive(Clone, Debug)]
pub struct ProfileToml {
    pub name: String,
    pub inherits: Option<String>,
    pub action: ActionToml,
}

/// A rule file.
#[derive(Clone, Debug)]
pub struct RuleFile {
    pub rule: Vec<RuleToml>,
    pub profile: Vec<ProfileToml>,
}

/// The notations in which rule files are written.
#[derive(Clone, Copy, Debug, PartialEq, Eq, Structural)]
pub enum RuleFileKind {
    Json,
    Toml,
}

/// The notation of the rule file with that name.
pub open spec fn kind_of(name: Seq<char>) -> Option<RuleFileKind> {
    if path::extension(name) == Some("json"@) {
        Some(RuleFileKind::Json)
    } else if path::extension(name) == Some("toml"@) {
        Some(RuleFileKind::Toml)
    } else {
        None
    }
}

/// The notation of the rule file with that name. Other files are no rule
/// files.
pub fn rule_file_kind(name: &str) -> (r: Option<RuleFileKind>)
    ensures
        r == kind_of(name@),
{
    match file_extension(name) {
        Some(ext) => {
            if same(ext.as_str(), "json") {
                Some(RuleFileKind::Json)
            } else if same(ext.as_str(), "toml") {
                Some(RuleFileKind::Toml)
            } else {
                None
            }
        },
        None => None,
    }
}

/// Whether `a` comes before `b` in alphabetical order, or is the same.
pub open spec fn alphabetical(a: Seq<char>, b: Seq<char>) -> bool
    decreases a.len(),
{
    a.len() == 0 || (b.len() > 0 && (a[0] < b[0] || (a[0] == b[0] && alphabetical(
        a.skip(1),
        b.skip(1),
    ))))
}

/// Alphabetical order is total.
pub proof fn alphabetical_is_total(a: Seq<char>, b: Seq<char>)
    ensures
        alphabetical(a, b) || alphabetical(b, a),
    decreases a.len(),
{
    if a.len() > 0 && b.len() > 0 {
        alphabetical_is_total(a.skip(1), b.skip(1));
    }
}

/// Alphabetical order is transitive.
pub proof fn alphabetical_is_transitive(a: Seq<char>, b: Seq<char>, c: Seq<char>)
    requires
        alphabetical(a, b),
        alphabetical(b, c),
    ensures
        alphabetical(a, c),
    decreases a.len(),
{
    if a.len() > 0 && a[0] == b[0] && b[0] == c[0] {
        alphabetical_is_transitive(a.skip(1), b.skip(1), c.skip(1));
    }
}

fn not_after(a: &str, b: &str) -> (r: bool)
    ensures
        r == alphabetical(a@, b@),
{
    let x = chars_of(a);
    let y = chars_of(b);
    let mut i: usize = 0;
    assert(a@.skip(0) =~= a@);
    assert(b@.skip(0) =~= b@);
    while i < x.len()
        invariant
            x@ == a@,
            y@ == b@,
            i <= x@.len(),
            i <= y@.len(),
            alphabetical(a@, b@) == alphabetical(a@.skip(i as int), b@.skip(i as int)),
        decreases x@.len() - i,
    {
        if i >= y.len() || y[i] < x[i] {
            return false;
        }
        assert(a@.skip(i as int).skip(1) =~= a@.skip(i + 1));
        assert(b@.skip(i as int).skip(1) =~= b@.skip(i + 1));
        if x[i] < y[i] {
            return true;
        }
        i = i + 1;
    }
    true
}

/// The names of rule files among the first `n`.
pub open spec fn rule_file_names(names: Seq<Seq<char>>, n: nat) -> Seq<Seq<char>>
    decreases n,
{
    if n == 0 {
        Seq::empty()
    } else {
        let done = rule_file_names(names, (n - 1) as nat);
        if kind_of(names[n - 1]) is Some {
            done.push(names[n - 1])
        } else {
            done
        }
    }
}

/// Inserting into a sequence adds one to what it holds.
pub proof fn insert_adds_one<A>(s: Seq<A>, i: int, a: A)
    requires
        0 <= i <= s.len(),
    ensures
        s.insert(i, a).to_multiset() == s.to_multiset().insert(a),
{
    broadcast use vstd::seq_lib::group_to_multiset_ensures;

    let t = s.insert(i, a);
    assert(t.remove(i) =~= s);
    assert(t.to_multiset().remove(a) =~= s.to_multiset());
    assert(t[i] == a);
    assert(t.contains(a));
    assert(t.to_multiset().count(a) > 0);
    assert(t.to_multiset() =~= s.to_multiset().insert(a));
}

/// The rule files of a directory in the order in which they are loaded:
/// alphabetically by name.
pub fn rule_files(names: &Vec<String>) -> (r: Vec<String>)
    ensures
        text::texts(r@).to_multiset() == rule_file_names(
            text::texts(names@),
            names@.len(),
        ).to_multiset(),
        forall|i: int, j: int|
            0 <= i <= j < r@.len() ==> alphabetical((#[trigger] r@[i])@, (#[trigger] r@[j])@),
{
    let mut r: Vec<String> = Vec::new();
    let ghost all = text::texts(names@);
    let mut n: usize = 0;
    assert(text::texts(r@) =~= Seq::<Seq<char>>::empty());
    while n < names.len()
        invariant
            all == text::texts(names@),
            n <= names@.len(),
            text::texts(r@).to_multiset() == rule_file_names(all, n as nat).to_multiset(),
            forall|i: int, j: int|
                0 <= i <= j < r@.len() ==> alphabetical((#[trigger] r@[i])@, (#[trigger] r@[j])@),
        decreases names@.len() - n,
    {
        let name = names[n].as_str();
        assert(name@ == all[n as int]);
        if rule_file_kind(name).is_some() {
            let mut at: usize = r.len();
            while at > 0 && !not_after(r[at - 1].as_str(), name)
                invariant
                    at <= r@.len(),
                    forall|i: int, j: int|
                        0 <= i <= j < r@.len() ==> alphabetical(
                            (#[trigger] r@[i])@,
                            (#[trigger] r@[j])@,
                        ),
                    forall|j: int| at <= j < r@.len() ==> alphabetical(name@, (#[trigger] r@[j])@),
                decreases at,
            {
                proof {
                    alphabetical_is_total(r@[at - 1]@, name@);
                }
                at = at - 1;
            }
            let ghost before = r@;
            proof {
                assert forall|i: int| 0 <= i < at implies alphabetical(
                    (#[trigger] before[i])@,
                    name@,
                ) by {
                    alphabetical_is_transitive(before[i]@, before[at - 1]@, name@);
                }
                alphabetical_is_total(name@, name@);
                insert_adds_one(text::texts(before), at as int, name@);
                vstd::seq_lib::to_multiset_build(rule_file_names(all, n as nat), name@);
            }
            r.insert(at, owned(name));
            assert(text::texts(r@) =~= text::texts(before).insert(at as int, name@));
            assert forall|i: int, j: int| 0 <= i <= j < r@.len() implies alphabetical(
                (#[trigger] r@[i])@,
                (#[trigger] r@[j])@,
            ) by {
                if i < at && j < at {
                    assert(r@[i] == before[i] && r@[j] == before[j]);
                } else if i < at && j == at {
                    assert(r@[i] == before[i]);
                } else if i < at {
                    assert(r@[i] == before[i] && r@[j] == before[j - 1]);
                } else if i == at && j > at {
                    assert(r@[j] == before[j - 1]);
                } else if i > at {
                    assert(r@[i] == before[i - 1] && r@[j] == before[j - 1]);
                }
            }
        }
        n = n + 1;
    }
    r
}

// ---------------------------------------------------------------------------
// Matching
// ---------------------------------------------------------------------------

/// Compiled match predicates.
#[derive(Clone, Debug)]
pub struct Matchers {
    pub comm: Vec<String>,
    pub comm_prefix: Vec<String>,
    pub cmdline_contains: Vec<String>,
    pub exe_path: Vec<String>,
    pub uid: Vec<u32>,
    pub env_set: Vec<String>,
    pub min_threads: Option<u32>,
    pub min_rss_mb: Option<u64>,
    pub parent_comm: Vec<String>,
    pub cgroup_path_contains: Vec<String>,
    /// A wildcard pattern for the cgroup path.
    pub cgroup_path_glob: Option<String>,
    /// The exact cgroup path.
    pub cgroup_path_exact: Option<String>,
}

/// What a `Matchers` says.
#[verifier::ext_equal]
pub struct MatchersView {
    pub comm: Seq<Seq<char>>,
    pub comm_prefix: Seq<Seq<char>>,
    pub cmdline_contains: Seq<Seq<char>>,
    pub exe_path: Seq<Seq<char>>,
    pub uid: Seq<u32>,
    pub env_set: Seq<Seq<char>>,
    pub min_threads: Option<u32>,
    pub min_rss_mb: Option<u64>,
    pub parent_comm: Seq<Seq<char>>,
    pub cgroup_path_contains: Seq<Seq<char>>,
    pub cgroup_path_glob: Option<Seq<char>>,
    pub cgroup_path_exact: Option<Seq<char>>,
}

impl View for Matchers {
    type V = MatchersView;

    open spec fn view(&self) -> MatchersView {
        MatchersView {
            comm: text::texts(self.comm@),
            comm_prefix: text::texts(self.comm_prefix@),
            cmdline_contains: text::texts(self.cmdline_contains@),
            exe_path: text::texts(self.exe_path@),
            uid: self.uid@,
            env_set: text::texts(self.env_set@),
            min_threads: self.min_threads,
            min_rss_mb: self.min_rss_mb,
            parent_comm: text::texts(self.parent_comm@),
            cgroup_path_contains: text::texts(self.cgroup_path_contains@),
            cgroup_path_glob: text::opt_text(self.cgroup_path_glob),
            cgroup_path_exact: text::opt_text(self.cgroup_path_exact),
        }
    }
}

impl Default for Matchers {
    fn default() -> (r: Matchers)
        ensures
            r@ == (MatchersView {
                comm: Seq::empty(),
                comm_prefix: Seq::empty(),
                cmdline_contains: Seq::empty(),
                exe_path: Seq::empty(),
                uid: Seq::empty(),
                env_set: Seq::empty(),
                min_threads: None,
                min_rss_mb: None,
                parent_comm: Seq::empty(),
                cgroup_path_contains: Seq::empty(),
                cgroup_path_glob: None,
                cgroup_path_exact: None,
            }),
    {
        let r = Matchers {
            comm: Vec::new(),
            comm_prefix: Vec::new(),
            cmdline_contains: Vec::new(),
            exe_path: Vec::new(),
            uid: Vec::new(),
            env_set: Vec::new(),
            min_threads: None,
            min_rss_mb: None,
            parent_comm: Vec::new(),
            cgroup_path_contains: Vec::new(),
            cgroup_path_glob: None,
            cgroup_path_exact: None,
        };
        assert(text::texts(r.comm@) =~= Seq::empty());
        r
    }
}

/// Whether one of the texts is a prefix of `s`.
pub open spec fn some_prefix(list: Seq<Seq<char>>, s: Seq<char>) -> bool {
    exists|i: int| 0 <= i < list.len() && text::starts_with(s, #[trigger] list[i])
}

/// Whether one of the texts stands in `s`.
pub open spec fn some_substring(list: Seq<Seq<char>>, s: Seq<char>) -> bool {
    exists|i: int| 0 <= i < list.len() && text::contains(s, #[trigger] list[i])
}

/// Whether one of the texts is the same path as `p`.
pub open spec fn some_path(list: Seq<Seq<char>>, p: Seq<char>) -> bool {
    exists|i: int| 0 <= i < list.len() && path::same_path_text(#[trigger] list[i], p)
}

/// Whether the process has a cgroup path that fits, or none is asked for.
pub open spec fn accepts_cgroup(m: MatchersView, cgroup: Option<Seq<char>>) -> bool {
    match cgroup {
        Some(c) => {
            &&& m.cgroup_path_contains.len() == 0 || some_substring(m.cgroup_path_contains, c)
            &&& m.cgroup_path_glob matches Some(g) ==> glob(g, c)
            &&& m.cgroup_path_exact matches Some(e) ==> c == e
        },
        None => m.cgroup_path_contains.len() == 0 && m.cgroup_path_glob is None
            && m.cgroup_path_exact is None,
    }
}

/// Whether every predicate holds of the process. A predicate that lists
/// nothing holds of every process.
pub open spec fn accepts(m: MatchersView, p: ProcessView, parent: Seq<char>) -> bool {
    &&& m.comm.len() == 0 || text::one_of(m.comm, p.comm)
    &&& m.comm_prefix.len() == 0 || some_prefix(m.comm_prefix, p.comm)
    &&& m.cmdline_contains.len() == 0 || some_substring(
        m.cmdline_contains,
        text::join(p.cmdline, " "@),
    )
    &&& m.exe_path.len() == 0 || (p.exe matches Some(e) && some_path(m.exe_path, e))
    &&& m.uid.len() == 0 || m.uid.contains(p.uid)
    &&& forall|i: int|
        0 <= i < m.env_set.len() ==> p.environ.dom().contains(#[trigger] m.env_set[i])
    &&& m.min_threads matches Some(n) ==> p.threads >= n
    &&& m.min_rss_mb matches Some(n) ==> p.vm_rss_kb / 1024 >= n
    &&& m.parent_comm.len() == 0 || text::one_of(m.parent_comm, parent)
    &&& accepts_cgroup(m, p.cgroup_path)
}

/// The name of the parent, empty where there is none.
pub open spec fn parent_name(parent: Option<&str>) -> Seq<char> {
    match parent {
        Some(s) => s@,
        None => Seq::empty(),
    }
}

fn any_prefix(list: &Vec<String>, s: &str) -> (r: bool)
    ensures
        r == some_prefix(text::texts(list@), s@),
{
    let mut i: usize = 0;
    while i < list.len()
        invariant
            i <= list@.len(),
            forall|k: int| 0 <= k < i ==> !text::starts_with(s@, (#[trigger] list@[k])@),
        decreases list@.len() - i,
    {
        if has_prefix(s, list[i].as_str()) {
            assert(text::starts_with(s@, text::texts(list@)[i as int]));
            return true;
        }
        i = i + 1;
    }
    assert forall|k: int| 0 <= k < text::texts(list@).len() implies !text::starts_with(
        s@,
        #[trigger] text::texts(list@)[k],
    ) by {
        assert(text::texts(list@)[k] == list@[k]@);
    }
    false
}

fn any_substring(list: &Vec<String>, s: &str) -> (r: bool)
    ensures
        r == some_substring(text::texts(list@), s@),
{
    let mut i: usize = 0;
    while i < list.len()
        invariant
            i <= list@.len(),
            forall|k: int| 0 <= k < i ==> !text::contains(s@, (#[trigger] list@[k])@),
        decreases list@.len() - i,
    {
        if has_substring(s, list[i].as_str()) {
            assert(text::contains(s@, text::texts(list@)[i as int]));
            return true;
        }
        i = i + 1;
    }
    assert forall|k: int| 0 <= k < text::texts(list@).len() implies !text::contains(
        s@,
        #[trigger] text::texts(list@)[k],
    ) by {
        assert(text::texts(list@)[k] == list@[k]@);
    }
    false
}

fn any_path(list: &Vec<String>, p: &str) -> (r: bool)
    ensures
        r == some_path(text::texts(list@), p@),
{
    let mut i: usize = 0;
    while i < list.len()
        invariant
            i <= list@.len(),
            forall|k: int| 0 <= k < i ==> !path::same_path_text((#[trigger] list@[k])@, p@),
        decreases list@.len() - i,
    {
        if same_path(list[i].as_str(), p) {
            assert(path::same_path_text(text::texts(list@)[i as int], p@));
            return true;
        }
        i = i + 1;
    }
    assert forall|k: int| 0 <= k < text::texts(list@).len() implies !path::same_path_text(
        #[trigger] text::texts(list@)[k],
        p@,
    ) by {
        assert(text::texts(list@)[k] == list@[k]@);
    }
    false
}

fn any_uid(list: &Vec<u32>, uid: u32) -> (r: bool)
    ensures
        r == list@.contains(uid),
{
    let mut i: usize = 0;
    while i < list.len()
        invariant
            i <= list@.len(),
            forall|k: int| 0 <= k < i ==> list@[k] != uid,
        decreases list@.len() - i,
    {
        if list[i] == uid {
            return true;
        }
        i = i + 1;
    }
    false
}

fn all_variables(list: &Vec<String>, proc: &ProcessInfo) -> (r: bool)
    ensures
        r == (forall|i: int|
            0 <= i < list@.len() ==> proc@.environ.dom().contains(
                #[trigger] text::texts(list@)[i],
            )),
{
    let mut i: usize = 0;
    while i < list.len()
        invariant
            i <= list@.len(),
            forall|k: int|
                0 <= k < i ==> proc@.environ.dom().contains(#[trigger] text::texts(list@)[k]),
        decreases list@.len() - i,
    {
        assert(text::texts(list@)[i as int] == list@[i as int]@);
        if !proc.has_variable(list[i].as_str()) {
            return false;
        }
        i = i + 1;
    }
    true
}

impl Matchers {
    fn matches_cgroup(&self, cgroup: &Option<String>) -> (r: bool)
        ensures
            r == accepts_cgroup(self@, text::opt_text(*cgroup)),
    {
        assert(text::texts(self.cgroup_path_contains@).len() == self.cgroup_path_contains@.len());
        match cgroup {
            Some(c) => {
                if self.cgroup_path_contains.len() > 0 && !any_substring(
                    &self.cgroup_path_contains,
                    c.as_str(),
                ) {
                    return false;
                }
                if let Some(pattern) = &self.cgroup_path_glob {
                    if !wild_matches(pattern.as_str(), c.as_str()) {
                        return false;
                    }
                }
                if let Some(exact) = &self.cgroup_path_exact {
                    if !same(c.as_str(), exact.as_str()) {
                        return false;
                    }
                }
                true
            },
            None => self.cgroup_path_contains.len() == 0 && self.cgroup_path_glob.is_none()
                && self.cgroup_path_exact.is_none(),
        }
    }

    /// Whether every predicate holds of the process.
    pub fn matches(&self, proc: &ProcessInfo, parent_comm: Option<&str>) -> (r: bool)
        ensures
            r == accepts(self@, proc@, parent_name(parent_comm)),
    {
        assert(text::texts(self.comm@).len() == self.comm@.len());
        assert(text::texts(self.comm_prefix@).len() == self.comm_prefix@.len());
        assert(text::texts(self.cmdline_contains@).len() == self.cmdline_contains@.len());
        assert(text::texts(self.exe_path@).len() == self.exe_path@.len());
        assert(text::texts(self.parent_comm@).len() == self.parent_comm@.len());
        assert(text::texts(self.env_set@).len() == self.env_set@.len());
        if self.comm.len() > 0 && !listed(&self.comm, proc.comm.as_str()) {
            return false;
        }
        if self.comm_prefix.len() > 0 && !any_prefix(&self.comm_prefix, proc.comm.as_str()) {
            return false;
        }
        if self.cmdline_contains.len() > 0 {
            let joined = join_with(&proc.cmdline, " ");
            if !any_substring(&self.cmdline_contains, joined.as_str()) {
                return false;
            }
        }
        if self.exe_path.len() > 0 {
            match &proc.exe {
                Some(e) => {
                    if !any_path(&self.exe_path, e.as_str()) {
                        return false;
                    }
                },
                None => {
                    return false;
                },
            }
        }
        if self.uid.len() > 0 && !any_uid(&self.uid, proc.uid) {
            return false;
        }
        if !all_variables(&self.env_set, proc) {
            proof {
                let k = choose|k: int|
                    0 <= k < self.env_set@.len() && !proc@.environ.dom().contains(
                        #[trigger] text::texts(self.env_set@)[k],
                    );
                assert(!proc@.environ.dom().contains(self@.env_set[k]));
            }
            return false;
        }
        if let Some(min_threads) = self.min_threads {
            if proc.threads < min_threads {
                return false;
            }
        }
        if let Some(min_rss) = self.min_rss_mb {
            if proc.vm_rss_kb / 1024 < min_rss {
                return false;
            }
        }
        if self.parent_comm.len() > 0 {
            let parent = match parent_comm {
                Some(s) => s,
                None => "",
            };
            proof {
                reveal_strlit("");
                assert(parent@ =~= parent_name(parent_comm));
            }
            if !listed(&self.parent_comm, parent) {
                return false;
            }
        }
        self.matches_cgroup(&proc.cgroup_path)
    }
}

// ---------------------------------------------------------------------------
// Actions and rules
// ---------------------------------------------------------------------------

/// Resolved action to apply to a process.
#[derive(Clone, Debug)]
pub struct Action {
    pub cgroup: Option<String>,
    pub nice: Option<i8>,
    pub sched_policy: Option<String>,
    pub sched_priority: Option<u8>,
    pub oom_score_adj: Option<i32>,
    pub io_weight: Option<u32>,
    pub recheck_secs: Option<u64>,
    pub apply_to_children: bool,
    pub rule_name: String,
}

/// What an `Action` says.
#[verifier::ext_equal]
pub struct ActionView {
    pub cgroup: Option<Seq<char>>,
    pub nice: Option<i8>,
    pub sched_policy: Option<Seq<char>>,
    pub sched_priority: Option<u8>,
    pub oom_score_adj: Option<i32>,
    pub io_weight: Option<u32>,
    pub recheck_secs: Option<u64>,
    pub apply_to_children: bool,
    pub rule_name: Seq<char>,
}

impl View for Action {
    type V = ActionView;

    open spec fn view(&self) -> ActionView {
        ActionView {
            cgroup: text::opt_text(self.cgroup),
            nice: self.nice,
            sched_policy: text::opt_text(self.sched_policy),
            sched_priority: self.sched_priority,
            oom_score_adj: self.oom_score_adj,
            io_weight: self.io_weight,
            recheck_secs: self.recheck_secs,
            apply_to_children: self.apply_to_children,
            rule_name: self.rule_name@,
        }
    }
}

/// What an action says, if there is one.
pub open spec fn opt_action(o: Option<Action>) -> Option<ActionView> {
    match o {
        Some(a) => Some(a@),
        None => None,
    }
}

impl Default for Action {
    fn default() -> (r: Action)
        ensures
            r@ == (ActionView {
                cgroup: None,
                nice: None,
                sched_policy: None,
                sched_priority: None,
                oom_score_adj: None,
                io_weight: None,
                recheck_secs: None,
                apply_to_children: false,
                rule_name: Seq::empty(),
            }),
    {
        let r = Action {
            cgroup: None,
            nice: None,
            sched_policy: None,
            sched_priority: None,
            oom_score_adj: None,
            io_weight: None,
            recheck_secs: None,
            apply_to_children: false,
            rule_name: String::new(),
        };
        assert(r.rule_name@ =~= Seq::empty());
        r
    }
}

impl Action {
    /// A copy.
    pub fn copied(&self) -> (r: Action)
        ensures
            r@ == self@,
    {
        Action {
            cgroup: owned_opt(&self.cgroup),
            nice: self.nice,
            sched_policy: owned_opt(&self.sched_policy),
            sched_priority: self.sched_priority,
            oom_score_adj: self.oom_score_adj,
            io_weight: self.io_weight,
            recheck_secs: self.recheck_secs,
            apply_to_children: self.apply_to_children,
            rule_name: owned(self.rule_name.as_str()),
        }
    }
}

/// A compiled rule.
#[derive(Clone, Debug)]
pub struct Rule {
    pub name: String,
    pub priority: i32,
    pub matchers: Matchers,
    pub action: Action,
    pub continue_: bool,
}

/// What a `Rule` says.
#[verifier::ext_equal]
pub struct RuleView {
    pub name: Seq<char>,
    pub priority: i32,
    pub matchers: MatchersView,
    pub action: ActionView,
    pub continue_: bool,
}

impl View for Rule {
    type V = RuleView;

    open spec fn view(&self) -> RuleView {
        RuleView {
            name: self.name@,
            priority: self.priority,
            matchers: self.matchers@,
            action: self.action@,
            continue_: self.continue_,
        }
    }
}

/// What each rule of a sequence says.
pub open spec fn rule_views(rules: Seq<Rule>) -> Seq<RuleView> {
    Seq::new(rules.len(), |i: int| rules[i]@)
}

/// Whether a path is a pattern: it holds a `*` or a `?`.
pub open spec fn is_pattern(s: Seq<char>) -> bool {
    s.contains('*') || s.contains('?')
}

fn has_wildcard(s: &str) -> (r: bool)
    ensures
        r == is_pattern(s@),
{
    let v = chars_of(s);
    let mut i: usize = 0;
    while i < v.len()
        invariant
            v@ == s@,
            i <= v@.len(),
            forall|k: int| 0 <= k < i ==> v@[k] != '*' && v@[k] != '?',
        decreases v@.len() - i,
    {
        if v[i] == '*' {
            assert(s@[i as int] == '*');
            return true;
        }
        if v[i] == '?' {
            assert(s@[i as int] == '?');
            return true;
        }
        i = i + 1;
    }
    false
}

/// The predicates that a rule file asks for.
pub open spec fn compiled_match(m: MatchToml) -> MatchersView {
    MatchersView {
        comm: text::texts(m.comm@),
        comm_prefix: text::texts(m.comm_prefix@),
        cmdline_contains: text::texts(m.cmdline_contains@),
        exe_path: text::texts(m.exe_path@),
        uid: m.uid@,
        env_set: text::texts(m.env_set@),
        min_threads: m.min_threads,
        min_rss_mb: m.min_rss_mb,
        parent_comm: text::texts(m.parent_comm@),
        cgroup_path_contains: text::texts(m.cgroup_path_contains@),
        cgroup_path_glob: match m.cgroup_path {
            Some(p) => if is_pattern(p@) {
                Some(p@)
            } else {
                None
            },
            None => None,
        },
        cgroup_path_exact: match m.cgroup_path {
            Some(p) => if is_pattern(p@) {
                None
            } else {
                Some(p@)
            },
            None => None,
        },
    }
}

/// The rule that a rule file asks for.
pub open spec fn compiled_rule(r: RuleToml) -> RuleView {
    RuleView {
        name: r.name@,
        priority: r.priority,
        matchers: compiled_match(r.match_),
        action: ActionView {
            cgroup: text::opt_text(r.action.cgroup),
            nice: r.action.nice,
            sched_policy: text::opt_text(r.action.sched_policy),
            sched_priority: r.action.sched_priority,
            oom_score_adj: r.action.oom_score_adj,
            io_weight: r.action.io_weight,
            recheck_secs: r.action.recheck_secs,
            apply_to_children: r.action.apply_to_children == Some(true),
            rule_name: r.name@,
        },
        continue_: r.continue_ || r.action.continue_ == Some(true),
    }
}

fn is_set(o: Option<bool>) -> (r: bool)
    ensures
        r == (o == Some(true)),
{
    match o {
        Some(b) => b,
        None => false,
    }
}

fn copy_numbers(v: &Vec<u32>) -> (r: Vec<u32>)
    ensures
        r@ == v@,
{
    let mut r: Vec<u32> = Vec::new();
    let mut i: usize = 0;
    while i < v.len()
        invariant
            i <= v@.len(),
            r@ == v@.take(i as int),
        decreases v@.len() - i,
    {
        r.push(v[i]);
        i = i + 1;
        assert(r@ =~= v@.take(i as int));
    }
    assert(v@.take(v@.len() as int) =~= v@);
    r
}

/// Compiles a rule: a cgroup path with a wildcard becomes a pattern, any other
/// an exact path.
pub fn compile_rule(r: &RuleToml) -> (c: Rule)
    ensures
        c@ == compiled_rule(*r),
        c.name@ == r.name@,
        c.priority == r.priority,
        c.continue_ == (r.continue_ || r.action.continue_ == Some(true)),
        c.action.cgroup is Some == r.action.cgroup is Some,
        r.action.cgroup matches Some(s) ==> c.action.cgroup->0@ == s@,
        c.action.nice == r.action.nice,
        c.action.sched_policy is Some == r.action.sched_policy is Some,
        r.action.sched_policy matches Some(s) ==> c.action.sched_policy->0@ == s@,
        c.action.sched_priority == r.action.sched_priority,
        c.action.oom_score_adj == r.action.oom_score_adj,
        c.action.io_weight == r.action.io_weight,
        c.action.recheck_secs == r.action.recheck_secs,
        c.action.apply_to_children == (r.action.apply_to_children == Some(true)),
        c.action.rule_name@ == r.name@,
        c.matchers.uid@ == r.match_.uid@,
        c.matchers.min_threads == r.match_.min_threads,
        c.matchers.min_rss_mb == r.match_.min_rss_mb,
{
    let m = &r.match_;
    let (cgroup_path_glob, cgroup_path_exact) = match &m.cgroup_path {
        Some(pattern) => {
            if has_wildcard(pattern.as_str()) {
                (Some(owned(pattern.as_str())), None)
            } else {
                (None, Some(owned(pattern.as_str())))
            }
        },
        None => (None, None),
    };
    let matchers = Matchers {
        comm: owned_all(&m.comm),
        comm_prefix: owned_all(&m.comm_prefix),
        cmdline_contains: owned_all(&m.cmdline_contains),
        exe_path: owned_all(&m.exe_path),
        uid: copy_numbers(&m.uid),
        env_set: owned_all(&m.env_set),
        min_threads: m.min_threads,
        min_rss_mb: m.min_rss_mb,
        parent_comm: owned_all(&m.parent_comm),
        cgroup_path_contains: owned_all(&m.cgroup_path_contains),
        cgroup_path_glob,
        cgroup_path_exact,
    };
    let at = &r.action;
    let action = Action {
        cgroup: owned_opt(&at.cgroup),
        nice: at.nice,
        sched_policy: owned_opt(&at.sched_policy),
        sched_priority: at.sched_priority,
        oom_score_adj: at.oom_score_adj,
        io_weight: at.io_weight,
        recheck_secs: at.recheck_secs,
        apply_to_children: is_set(at.apply_to_children),
        rule_name: owned(r.name.as_str()),
    };
    Rule {
        name: owned(r.name.as_str()),
        priority: r.priority,
        matchers,
        action,
        continue_: r.continue_ || is_set(at.continue_),
    }
}

// ---------------------------------------------------------------------------
// Profiles
// ---------------------------------------------------------------------------

/// The first choice, or else the second.
pub open spec fn either<A>(a: Option<A>, b: Option<A>) -> Option<A> {
    match a {
        Some(x) => Some(x),
        None => b,
    }
}

/// The resolved actions of the profiles, by name. Of two profiles with one
/// name the later counts.
pub open spec fn profile_map(profiles: Seq<(String, ActionToml)>) -> Map<Seq<char>, ActionTomlView>
    decreases profiles.len(),
{
    if profiles.len() == 0 {
        Map::empty()
    } else {
        profile_map(profiles.drop_last()).insert(profiles.last().0@, profiles.last().1@)
    }
}

/// The action of a profile: that of its parent, overridden by its own fields.
/// A parent that is not known is ignored.
pub open spec fn resolved_profile(
    prof: ProfileToml,
    map: Map<Seq<char>, ActionTomlView>,
) -> ActionTomlView {
    match prof.inherits {
        Some(parent) => if map.dom().contains(parent@) {
            let base = map[parent@];
            let own = prof.action@;
            ActionTomlView {
                cgroup: either(own.cgroup, base.cgroup),
                nice: either(own.nice, base.nice),
                sched_policy: either(own.sched_policy, base.sched_policy),
                sched_priority: either(own.sched_priority, base.sched_priority),
                oom_score_adj: either(own.oom_score_adj, base.oom_score_adj),
                io_weight: either(own.io_weight, base.io_weight),
                recheck_secs: either(own.recheck_secs, base.recheck_secs),
                apply_to_children: either(own.apply_to_children, base.apply_to_children),
                script: either(own.script, base.script),
                continue_: either(own.continue_, base.continue_),
            }
        } else {
            prof.action@
        },
        None => prof.action@,
    }
}

/// The profile of that name.
fn find_profile<'a>(profiles: &'a Vec<(String, ActionToml)>, name: &str) -> (r: Option<
    &'a ActionToml,
>)
    ensures
        match r {
            Some(a) => profile_map(profiles@).dom().contains(name@) && a@ == profile_map(
                profiles@,
            )[name@],
            None => !profile_map(profiles@).dom().contains(name@),
        },
{
    let mut n: usize = profiles.len();
    assert(profiles@.take(n as int) =~= profiles@);
    while n > 0
        invariant
            n <= profiles@.len(),
            profile_map(profiles@).dom().contains(name@) == profile_map(
                profiles@.take(n as int),
            ).dom().contains(name@),
            profile_map(profiles@)[name@] == profile_map(profiles@.take(n as int))[name@],
        decreases n,
    {
        let ghost part = profiles@.take(n as int);
        assert(part.drop_last() =~= profiles@.take(n - 1));
        assert(part.last() == profiles@[n - 1]);
        if same(profiles[n - 1].0.as_str(), name) {
            return Some(&profiles[n - 1].1);
        }
        n = n - 1;
    }
    None
}

fn first_text(a: &Option<String>, b: &Option<String>) -> (r: Option<String>)
    ensures
        text::opt_text(r) == either(text::opt_text(*a), text::opt_text(*b)),
{
    match a {
        Some(s) => Some(owned(s.as_str())),
        None => owned_opt(b),
    }
}

fn first_of<A: Copy>(a: Option<A>, b: Option<A>) -> (r: Option<A>)
    ensures
        r == either(a, b),
{
    match a {
        Some(x) => Some(x),
        None => b,
    }
}

/// The action of a profile: that of its parent, overridden by its own fields.
pub fn resolve_profile_action(
    prof: &ProfileToml,
    profiles: &Vec<(String, ActionToml)>,
) -> (r: ActionToml)
    ensures
        r@ == resolved_profile(*prof, profile_map(profiles@)),
{
    if let Some(parent) = &prof.inherits {
        if let Some(base) = find_profile(profiles, parent.as_str()) {
            let own = &prof.action;
            return ActionToml {
                cgroup: first_text(&own.cgroup, &base.cgroup),
                nice: first_of(own.nice, base.nice),
                sched_policy: first_text(&own.sched_policy, &base.sched_policy),
                sched_priority: first_of(own.sched_priority, base.sched_priority),
                oom_score_adj: first_of(own.oom_score_adj, base.oom_score_adj),
                io_weight: first_of(own.io_weight, base.io_weight),
                recheck_secs: first_of(own.recheck_secs, base.recheck_secs),
                apply_to_children: first_of(own.apply_to_children, base.apply_to_children),
                script: first_text(&own.script, &base.script),
                continue_: first_of(own.continue_, base.continue_),
            };
        }
    }
    prof.action.copied()
}

/// The profiles known after the first `n` of a list were registered.
pub open spec fn registered(
    known: Map<Seq<char>, ActionTomlView>,
    profiles: Seq<ProfileToml>,
    n: nat,
) -> Map<Seq<char>, ActionTomlView>
    decreases n,
{
    if n == 0 {
        known
    } else {
        let before = registered(known, profiles, (n - 1) as nat);
        before.insert(profiles[n - 1].name@, resolved_profile(profiles[n - 1], before))
    }
}

/// Registers the profiles of a rule file, each resolved against those that
/// were registered before it.
pub fn register_profiles(known: &mut Vec<(String, ActionToml)>, profiles: &Vec<ProfileToml>)
    ensures
        profile_map(final(known)@) == registered(
            profile_map(old(known)@),
            profiles@,
            profiles@.len(),
        ),
{
    let mut n: usize = 0;
    while n < profiles.len()
        invariant
            n <= profiles@.len(),
            profile_map(known@) == registered(profile_map(old(known)@), profiles@, n as nat),
        decreases profiles@.len() - n,
    {
        let prof = &profiles[n];
        let resolved = resolve_profile_action(prof, known);
        let ghost before = known@;
        known.push((owned(prof.name.as_str()), resolved));
        assert(known@.drop_last() =~= before);
        n = n + 1;
    }
}

// ---------------------------------------------------------------------------
// Order of the rules
// ---------------------------------------------------------------------------

/// The position of the first rule with a lower priority, at or after `i`.
pub open spec fn place_from(rules: Seq<RuleView>, priority: i32, i: int) -> int
    decreases rules.len() - i,
{
    if i >= rules.len() {
        rules.len() as int
    } else if rules[i].priority < priority {
        i
    } else {
        place_from(rules, priority, i + 1)
    }
}

/// The rules with one more: it goes behind all rules of its own priority or a
/// higher one.
pub open spec fn with_rule(rules: Seq<RuleView>, r: RuleView) -> Seq<RuleView> {
    rules.insert(place_from(rules, r.priority, 0), r)
}

/// The rules, highest priority first. Rules of one priority keep their order.
pub open spec fn by_priority(rules: Seq<RuleView>) -> Seq<RuleView>
    decreases rules.len(),
{
    if rules.len() == 0 {
        Seq::empty()
    } else {
        with_rule(by_priority(rules.drop_last()), rules.last())
    }
}

/// Whether no rule stands behind one of lower priority.
pub open spec fn ordered(rules: Seq<RuleView>) -> bool {
    forall|i: int, j: int|
        0 <= i <= j < rules.len() ==> (#[trigger] rules[i]).priority >= (
        #[trigger] rules[j]).priority
}

/// The rules of one priority, in their order.
pub open spec fn of_priority(rules: Seq<RuleView>, priority: i32) -> Seq<RuleView> {
    rules.filter(|r: RuleView| r.priority == priority)
}

proof fn lemma_place(rules: Seq<RuleView>, priority: i32, i: int)
    requires
        0 <= i <= rules.len(),
    ensures
        i <= place_from(rules, priority, i) <= rules.len(),
        forall|k: int|
            i <= k < place_from(rules, priority, i) ==> (#[trigger] rules[k]).priority >= priority,
        place_from(rules, priority, i) < rules.len() ==> rules[place_from(
            rules,
            priority,
            i,
        )].priority < priority,
    decreases rules.len() - i,
{
    if i < rules.len() && rules[i].priority >= priority {
        lemma_place(rules, priority, i + 1);
    }
}

/// Ordering by priority puts no rule behind one of lower priority.
pub proof fn by_priority_is_ordered(rules: Seq<RuleView>)
    ensures
        ordered(by_priority(rules)),
    decreases rules.len(),
{
    if rules.len() > 0 {
        let init = by_priority(rules.drop_last());
        by_priority_is_ordered(rules.drop_last());
        let r = rules.last();
        let at = place_from(init, r.priority, 0);
        lemma_place(init, r.priority, 0);
        let all = init.insert(at, r);
        assert forall|i: int, j: int| 0 <= i <= j < all.len() implies (
        #[trigger] all[i]).priority >= (#[trigger] all[j]).priority by {
            if j < at {
                assert(all[i] == init[i] && all[j] == init[j]);
            } else if j == at && i < at {
                assert(all[i] == init[i]);
            } else if j > at {
                assert(all[j] == init[j - 1]);
                assert(init[at].priority < r.priority);
                assert(init[at].priority >= init[j - 1].priority);
                if i < at {
                    assert(all[i] == init[i]);
                } else if i > at {
                    assert(all[i] == init[i - 1]);
                }
            }
        }
    }
}

/// Ordering by priority neither adds nor drops a rule.
pub proof fn by_priority_keeps_rules(rules: Seq<RuleView>)
    ensures
        by_priority(rules).to_multiset() == rules.to_multiset(),
    decreases rules.len(),
{
    if rules.len() > 0 {
        by_priority_keeps_rules(rules.drop_last());
        let init = by_priority(rules.drop_last());
        lemma_place(init, rules.last().priority, 0);
        insert_adds_one(init, place_from(init, rules.last().priority, 0), rules.last());
        vstd::seq_lib::to_multiset_build(rules.drop_last(), rules.last());
        assert(rules =~= rules.drop_last().push(rules.last()));
    } else {
        assert(rules =~= Seq::empty());
    }
}

proof fn lemma_filter_insert(rules: Seq<RuleView>, at: int, r: RuleView, priority: i32)
    requires
        0 <= at <= rules.len(),
        forall|k: int| at <= k < rules.len() ==> (#[trigger] rules[k]).priority < r.priority,
    ensures
        of_priority(rules.insert(at, r), priority) == if r.priority == priority {
            of_priority(rules, priority).push(r)
        } else {
            of_priority(rules, priority)
        },
    decreases rules.len() - at,
{
    let keep = |x: RuleView| x.priority == priority;
    let all = rules.insert(at, r);
    reveal(Seq::filter);
    if at == rules.len() {
        assert(all.drop_last() =~= rules);
    } else {
        let init = rules.drop_last();
        assert forall|k: int| at <= k < init.len() implies (
        #[trigger] init[k]).priority < r.priority by {
            assert(init[k] == rules[k]);
        }
        lemma_filter_insert(init, at, r, priority);
        assert(all.drop_last() =~= init.insert(at, r));
        assert(all.last() == rules.last());
        assert(rules[rules.len() - 1].priority < r.priority);
    }
}

/// Rules of one priority keep the order in which they were loaded.
pub proof fn by_priority_is_stable(rules: Seq<RuleView>, priority: i32)
    ensures
        of_priority(by_priority(rules), priority) == of_priority(rules, priority),
    decreases rules.len(),
{
    reveal(Seq::filter);
    if rules.len() > 0 {
        by_priority_is_stable(rules.drop_last(), priority);
        by_priority_is_ordered(rules.drop_last());
        let init = by_priority(rules.drop_last());
        let r = rules.last();
        lemma_place(init, r.priority, 0);
        let at = place_from(init, r.priority, 0);
        assert forall|k: int| at <= k < init.len() implies (
        #[trigger] init[k]).priority < r.priority by {
            assert(init[at].priority >= init[k].priority);
        }
        lemma_filter_insert(init, at, r, priority);
    } else {
        assert(rules =~= Seq::empty());
    }
}

/// Puts a rule behind all rules of its own priority or a higher one.
fn insert_rule(rules: &mut Vec<Rule>, r: Rule)
    ensures
        rule_views(final(rules)@) == with_rule(rule_views(old(rules)@), r@),
{
    let ghost views = rule_views(rules@);
    let mut at: usize = 0;
    while at < rules.len() && rules[at].priority >= r.priority
        invariant
            views == rule_views(rules@),
            views.len() == rules@.len(),
            at <= rules@.len(),
            place_from(views, r.priority, 0) == place_from(views, r.priority, at as int),
        decreases rules@.len() - at,
    {
        assert(views[at as int] == rules@[at as int]@);
        at = at + 1;
    }
    if at < rules.len() {
        assert(views[at as int] == rules@[at as int]@);
    }
    rules.insert(at, r);
    assert(rule_views(rules@) =~= views.insert(at as int, r@));
}

/// The rules of the first `n` files, in the order of the files.
pub open spec fn rules_in(files: Seq<RuleFile>, n: nat) -> Seq<RuleView>
    decreases n,
{
    if n == 0 {
        Seq::empty()
    } else {
        rules_in(files, (n - 1) as nat) + Seq::new(
            files[n - 1].rule@.len(),
            |i: int| compiled_rule(files[n - 1].rule@[i]),
        )
    }
}

/// The rules of a list of rule files, ordered by priority.
pub fn load_rules(files: &Vec<RuleFile>) -> (r: Vec<Rule>)
    ensures
        rule_views(r@) == by_priority(rules_in(files@, files@.len())),
{
    let mut profiles: Vec<(String, ActionToml)> = Vec::new();
    let mut rules: Vec<Rule> = Vec::new();
    let mut n: usize = 0;
    assert(rule_views(rules@) =~= by_priority(rules_in(files@, 0)));
    while n < files.len()
        invariant
            n <= files@.len(),
            rule_views(rules@) == by_priority(rules_in(files@, n as nat)),
        decreases files@.len() - n,
    {
        let file = &files[n];
        register_profiles(&mut profiles, &file.profile);
        let ghost before = rules_in(files@, n as nat);
        let ghost own = Seq::new(file.rule@.len(), |i: int| compiled_rule(file.rule@[i]));
        let mut i: usize = 0;
        assert(before + own.take(0) =~= before);
        while i < file.rule.len()
            invariant
                i <= file.rule@.len(),
                own == Seq::new(file.rule@.len(), |i: int| compiled_rule(file.rule@[i])),
                rule_views(rules@) == by_priority(before + own.take(i as int)),
            decreases file.rule@.len() - i,
        {
            let rule = compile_rule(&file.rule[i]);
            insert_rule(&mut rules, rule);
            let ghost next = before + own.take(i + 1);
            assert(next.drop_last() =~= before + own.take(i as int));
            assert(next.last() == rule@);
            i = i + 1;
        }
        assert(own.take(own.len() as int) =~= own);
        n = n + 1;
        assert(rules_in(files@, n as nat) =~= before + own);
    }
    rules
}

// ---------------------------------------------------------------------------
// Exceptions
// ---------------------------------------------------------------------------

/// Processes that must never be touched by the daemon.
#[derive(Clone, Debug)]
pub struct ExceptionList {
    /// Exact process names.
    pub exact_names: Vec<String>,
    /// If any ancestor has one of these names, the process is exempt.
    pub ancestor_names: Vec<String>,
}

/// The names of processes that are never touched.
pub open spec fn exempt_names() -> Seq<Seq<char>> {
    seq![
        "chrt"@,
        "dbus"@,
        "dbus-broker"@,
        "gamemoderun"@,
        "ionice"@,
        "nice"@,
        "rtkit-daemon"@,
        "taskset"@,
        "schedtool"@,
        "systemd"@,
    ]
}

/// The names of processes whose descendants are never touched.
pub open spec fn exempt_ancestors() -> Seq<Seq<char>> {
    seq!["chrt"@, "gamemoderun"@, "ionice"@, "nice"@, "taskset"@, "schedtool"@]
}

impl Default for ExceptionList {
    fn default() -> (r: ExceptionList)
        ensures
            text::texts(r.exact_names@) == exempt_names(),
            text::texts(r.ancestor_names@) == exempt_ancestors(),
    {
        let exact_names: Vec<String> = vec![
            owned("chrt"),
            owned("dbus"),
            owned("dbus-broker"),
            owned("gamemoderun"),
            owned("ionice"),
            owned("nice"),
            owned("rtkit-daemon"),
            owned("taskset"),
            owned("schedtool"),
            owned("systemd"),
        ];
        let ancestor_names: Vec<String> = vec![
            owned("chrt"),
            owned("gamemoderun"),
            owned("ionice"),
            owned("nice"),
            owned("taskset"),
            owned("schedtool"),
        ];
        assert(text::texts(exact_names@) =~= exempt_names());
        assert(text::texts(ancestor_names@) =~= exempt_ancestors());
        ExceptionList { exact_names, ancestor_names }
    }
}

/// Whether the process or one of its ancestors is on the list.
pub open spec fn exempt(list: ExceptionList, comm: Seq<char>, ancestors: Seq<Seq<char>>) -> bool {
    text::one_of(text::texts(list.exact_names@), comm) || exists|i: int|
        0 <= i < ancestors.len() && text::one_of(
            text::texts(list.ancestor_names@),
            #[trigger] ancestors[i],
        )
}

impl ExceptionList {
    /// Whether the process is to be left alone: it is on the list itself, or
    /// one of its ancestors is.
    pub fn is_exempt(&self, proc: &ProcessInfo, ancestor_comms: &[String]) -> (r: bool)
        ensures
            r == exempt(*self, proc@.comm, text::texts(ancestor_comms@)),
    {
        if listed(&self.exact_names, proc.comm.as_str()) {
            return true;
        }
        let ghost names = text::texts(ancestor_comms@);
        let mut i: usize = 0;
        while i < ancestor_comms.len()
            invariant
                names == text::texts(ancestor_comms@),
                i <= ancestor_comms@.len(),
                forall|k: int|
                    0 <= k < i ==> !text::one_of(
                        text::texts(self.ancestor_names@),
                        #[trigger] names[k],
                    ),
            decreases ancestor_comms@.len() - i,
        {
            assert(names[i as int] == ancestor_comms@[i as int]@);
            if listed(&self.ancestor_names, ancestor_comms[i].as_str()) {
                return true;
            }
            i = i + 1;
        }
        false
    }
}

// ---------------------------------------------------------------------------
// Engine
// ---------------------------------------------------------------------------

/// Whether the process has a realtime policy.
pub open spec fn has_realtime(policy: SchedPolicy) -> bool {
    policy is Fifo || policy is RoundRobin || policy is Deadline
}

/// The action of a rule for a process. Where the process has a realtime policy,
/// an action that names the policy `normal` leaves the policy alone.
pub open spec fn adapted(r: RuleView, realtime: bool) -> ActionView {
    ActionView {
        sched_policy: if realtime && r.action.sched_policy == Some("normal"@) {
            None
        } else {
            r.action.sched_policy
        },
        rule_name: r.name,
        ..r.action
    }
}

/// The rules that have a say from position `i` on: those that match, up to
/// the first that does not continue.
pub open spec fn deciding_from(
    rules: Seq<RuleView>,
    p: ProcessView,
    parent: Seq<char>,
    i: int,
) -> Seq<RuleView>
    decreases rules.len() - i,
{
    if i >= rules.len() {
        Seq::empty()
    } else if !accepts(rules[i].matchers, p, parent) {
        deciding_from(rules, p, parent, i + 1)
    } else if rules[i].continue_ {
        seq![rules[i]] + deciding_from(rules, p, parent, i + 1)
    } else {
        seq![rules[i]]
    }
}

/// An action with its open fields taken from another.
pub open spec fn filled(dst: ActionView, src: ActionView) -> ActionView {
    ActionView {
        cgroup: either(dst.cgroup, src.cgroup),
        nice: either(dst.nice, src.nice),
        sched_policy: either(dst.sched_policy, src.sched_policy),
        sched_priority: either(dst.sched_priority, src.sched_priority),
        oom_score_adj: either(dst.oom_score_adj, src.oom_score_adj),
        io_weight: either(dst.io_weight, src.io_weight),
        recheck_secs: either(dst.recheck_secs, src.recheck_secs),
        apply_to_children: dst.apply_to_children,
        rule_name: dst.rule_name,
    }
}

/// The action that the deciding rules make together.
pub open spec fn combined(rules: Seq<RuleView>, realtime: bool) -> Option<ActionView>
    decreases rules.len(),
{
    if rules.len() == 0 {
        None
    } else {
        let last = adapted(rules.last(), realtime);
        match combined(rules.drop_last(), realtime) {
            Some(first) => Some(filled(first, last)),
            None => Some(last),
        }
    }
}

/// The name of the first ancestor, empty where there is none.
pub open spec fn first_name(ancestors: Seq<Seq<char>>) -> Seq<char> {
    if ancestors.len() > 0 {
        ancestors[0]
    } else {
        Seq::empty()
    }
}

/// The action for a process: none if it is exempt or no rule matches.
pub open spec fn classified(
    rules: Seq<RuleView>,
    exceptions: ExceptionList,
    p: ProcessView,
    ancestors: Seq<Seq<char>>,
) -> Option<ActionView> {
    if exempt(exceptions, p.comm, ancestors) {
        None
    } else {
        combined(
            deciding_from(rules, p, first_name(ancestors), 0),
            has_realtime(p.sched_policy),
        )
    }
}

/// Takes the open fields of `dst` from `src`.
pub fn merge_action(dst: &mut Action, src: &Action)
    ensures
        final(dst)@ == filled(old(dst)@, src@),
{
    dst.cgroup = first_text(&dst.cgroup, &src.cgroup);
    dst.nice = first_of(dst.nice, src.nice);
    dst.sched_policy = first_text(&dst.sched_policy, &src.sched_policy);
    dst.sched_priority = first_of(dst.sched_priority, src.sched_priority);
    dst.oom_score_adj = first_of(dst.oom_score_adj, src.oom_score_adj);
    dst.io_weight = first_of(dst.io_weight, src.io_weight);
    dst.recheck_secs = first_of(dst.recheck_secs, src.recheck_secs);
}

fn adapt_action(rule: &Rule, realtime: bool) -> (r: Action)
    ensures
        r@ == adapted(rule@, realtime),
{
    let mut action = rule.action.copied();
    action.rule_name = owned(rule.name.as_str());
    if realtime {
        let made_normal = match &action.sched_policy {
            Some(policy) => same(policy.as_str(), "normal"),
            None => false,
        };
        if made_normal {
            action.sched_policy = None;
        }
    }
    action
}

/// The rules and the exceptions from them.
pub struct RuleEngine {
    pub rules: Vec<Rule>,
    pub exceptions: ExceptionList,
}

impl RuleEngine {
    /// The engine for a list of rule files, in the order in which they were
    /// loaded.
    pub fn load(files: &Vec<RuleFile>) -> (r: RuleEngine)
        ensures
            rule_views(r.rules@) == by_priority(rules_in(files@, files@.len())),
            text::texts(r.exceptions.exact_names@) == exempt_names(),
            text::texts(r.exceptions.ancestor_names@) == exempt_ancestors(),
    {
        RuleEngine { rules: load_rules(files), exceptions: ExceptionList::default() }
    }

    /// Replaces the rules by those of a list of rule files.
    pub fn reload(&mut self, files: &Vec<RuleFile>)
        ensures
            rule_views(final(self).rules@) == by_priority(rules_in(files@, files@.len())),
            final(self).exceptions == old(self).exceptions,
    {
        self.rules = load_rules(files);
    }

    /// The number of rules.
    pub fn rule_count(&self) -> (r: usize)
        ensures
            r == self.rules@.len(),
    {
        self.rules.len()
    }

    /// Whether some rule asks for the environment of a process.
    pub fn wants_environ(&self) -> (r: bool)
        ensures
            r == exists|i: int|
                0 <= i < self.rules@.len() && (#[trigger] self.rules@[i]).matchers.env_set@.len()
                    > 0,
    {
        let mut i: usize = 0;
        while i < self.rules.len()
            invariant
                i <= self.rules@.len(),
                forall|k: int|
                    0 <= k < i ==> (#[trigger] self.rules@[k]).matchers.env_set@.len() == 0,
            decreases self.rules@.len() - i,
        {
            if self.rules[i].matchers.env_set.len() > 0 {
                return true;
            }
            i = i + 1;
        }
        false
    }

    /// The action for a process, given the names of its ancestors, nearest
    /// first. There is none if the process is exempt or no rule matches.
    pub fn classify(&self, proc: &ProcessInfo, ancestor_comms: &[String]) -> (r: Option<Action>)
        ensures
            opt_action(r) == classified(
                rule_views(self.rules@),
                self.exceptions,
                proc@,
                text::texts(ancestor_comms@),
            ),
    {
        if self.exceptions.is_exempt(proc, ancestor_comms) {
            return None;
        }
        let realtime = match proc.sched_policy {
            SchedPolicy::Fifo(_) => true,
            SchedPolicy::RoundRobin(_) => true,
            SchedPolicy::Deadline => true,
            _ => false,
        };
        let ghost names = text::texts(ancestor_comms@);
        let ghost rules = rule_views(self.rules@);
        let ghost parent_text = first_name(names);
        let parent: Option<&str> = if ancestor_comms.len() > 0 {
            Some(ancestor_comms[0].as_str())
        } else {
            None
        };
        assert(parent_name(parent) =~= parent_text);
        let ghost all = deciding_from(rules, proc@, parent_text, 0);
        let ghost mut done: Seq<RuleView> = Seq::empty();
        let mut result: Option<Action> = None;
        let mut i: usize = 0;
        let mut open: bool = true;
        assert(done + all =~= all);
        while open && i < self.rules.len()
            invariant
                rules == rule_views(self.rules@),
                rules.len() == self.rules@.len(),
                parent_name(parent) == parent_text,
                all == deciding_from(rules, proc@, parent_text, 0),
                i <= self.rules@.len(),
                opt_action(result) == combined(done, realtime),
                all == if open {
                    done + deciding_from(rules, proc@, parent_text, i as int)
                } else {
                    done
                },
            decreases self.rules@.len() - i,
        {
            let rule = &self.rules[i];
            assert(rules[i as int] == rule@);
            if rule.matchers.matches(proc, parent) {
                let action = adapt_action(rule, realtime);
                let ghost next = done.push(rule@);
                assert(next.drop_last() =~= done);
                result =
                match result {
                    Some(prev) => {
                        let mut merged = prev;
                        merge_action(&mut merged, &action);
                        Some(merged)
                    },
                    None => Some(action),
                };
                if !rule.continue_ {
                    open = false;
                    assert(all =~= next);
                } else {
                    assert(all =~= next + deciding_from(rules, proc@, parent_text, i + 1));
                }
                proof {
                    done = next;
                }
            }
            i = i + 1;
        }
        assert(all =~= done);
        result
    }
}

/// An exempt process is never given an action.
pub proof fn exempt_is_left_alone(
    rules: Seq<RuleView>,
    exceptions: ExceptionList,
    p: ProcessView,
    ancestors: Seq<Seq<char>>,
)
    requires
        exempt(exceptions, p.comm, ancestors),
    ensures
        classified(rules, exceptions, p, ancestors) is None,
{
}

/// A process that is not exempt is given an action exactly if some rule
/// matches it.
pub proof fn classified_iff_some_rule_matches(
    rules: Seq<RuleView>,
    exceptions: ExceptionList,
    p: ProcessView,
    ancestors: Seq<Seq<char>>,
)
    requires
        !exempt(exceptions, p.comm, ancestors),
    ensures
        classified(rules, exceptions, p, ancestors) is Some <==> exists|i: int|
            0 <= i < rules.len() && accepts(
                (#[trigger] rules[i]).matchers,
                p,
                first_name(ancestors),
            ),
{
    let parent = first_name(ancestors);
    lemma_deciding_nonempty(rules, p, parent, 0);
    lemma_combined_some(deciding_from(rules, p, parent, 0), has_realtime(p.sched_policy));
}

proof fn lemma_deciding_nonempty(
    rules: Seq<RuleView>,
    p: ProcessView,
    parent: Seq<char>,
    from: int,
)
    requires
        0 <= from,
    ensures
        deciding_from(rules, p, parent, from).len() > 0 <==> exists|i: int|
            from <= i < rules.len() && accepts((#[trigger] rules[i]).matchers, p, parent),
    decreases rules.len() - from,
{
    if from < rules.len() && !accepts(rules[from].matchers, p, parent) {
        lemma_deciding_nonempty(rules, p, parent, from + 1);
    }
}

proof fn lemma_combined_some(rules: Seq<RuleView>, realtime: bool)
    ensures
        combined(rules, realtime) is Some <==> rules.len() > 0,
{
}

/// The first match gives the name and decides about the children.
pub proof fn first_match_names_the_action(rules: Seq<RuleView>, realtime: bool)
    requires
        rules.len() > 0,
    ensures
        combined(rules, realtime) matches Some(a) && a.rule_name == rules[0].name
            && a.apply_to_children == rules[0].action.apply_to_children,
    decreases rules.len(),
{
    if rules.len() > 1 {
        first_match_names_the_action(rules.drop_last(), realtime);
        assert(rules.drop_last()[0] == rules[0]);
    } else {
        assert(combined(rules.drop_last(), realtime) is None);
    }
}

/// Every field comes from the first deciding rule that sets it; a field that
/// none of them sets stays open.
pub proof fn first_match_wins_for_each_field(rules: Seq<RuleView>, realtime: bool)
    requires
        rules.len() > 0,
    ensures
        ({
            let a = combined(rules, realtime)->0;
            let acts = Seq::new(rules.len(), |i: int| adapted(rules[i], realtime));
            &&& a.cgroup == first_set(acts, |x: ActionView| x.cgroup)
            &&& a.nice == first_set(acts, |x: ActionView| x.nice)
            &&& a.sched_policy == first_set(acts, |x: ActionView| x.sched_policy)
            &&& a.sched_priority == first_set(acts, |x: ActionView| x.sched_priority)
            &&& a.oom_score_adj == first_set(acts, |x: ActionView| x.oom_score_adj)
            &&& a.io_weight == first_set(acts, |x: ActionView| x.io_weight)
            &&& a.recheck_secs == first_set(acts, |x: ActionView| x.recheck_secs)
        }),
    decreases rules.len(),
{
    let acts = Seq::new(rules.len(), |i: int| adapted(rules[i], realtime));
    let init = rules.drop_last();
    let init_acts = Seq::new(init.len(), |i: int| adapted(init[i], realtime));
    assert(acts.drop_last() =~= init_acts);
    lemma_first_set(acts, |x: ActionView| x.cgroup);
    lemma_first_set(acts, |x: ActionView| x.nice);
    lemma_first_set(acts, |x: ActionView| x.sched_policy);
    lemma_first_set(acts, |x: ActionView| x.sched_priority);
    lemma_first_set(acts, |x: ActionView| x.oom_score_adj);
    lemma_first_set(acts, |x: ActionView| x.io_weight);
    lemma_first_set(acts, |x: ActionView| x.recheck_secs);
    if init.len() > 0 {
        first_match_wins_for_each_field(init, realtime);
    } else {
        assert(init_acts =~= Seq::empty());
    }
}

/// What the first action that sets a field sets it to.
pub open spec fn first_set<A>(
    acts: Seq<ActionView>,
    field: spec_fn(ActionView) -> Option<A>,
) -> Option<A>
    decreases acts.len(),
{
    if acts.len() == 0 {
        None
    } else if field(acts[0]) is Some {
        field(acts[0])
    } else {
        first_set(acts.skip(1), field)
    }
}

proof fn lemma_first_set<A>(acts: Seq<ActionView>, field: spec_fn(ActionView) -> Option<A>)
    requires
        acts.len() > 0,
    ensures
        first_set(acts, field) == either(first_set(acts.drop_last(), field), field(acts.last())),
    decreases acts.len(),
{
    if acts.len() == 1 {
        assert(acts.drop_last() =~= Seq::empty());
        assert(acts.skip(1) =~= Seq::empty());
        assert(first_set(acts.skip(1), field) is None);
    } else {
        lemma_first_set(acts.skip(1), field);
        assert(acts.skip(1).drop_last() =~= acts.drop_last().skip(1));
        assert(acts.drop_last()[0] == acts[0]);
    }
}

/// The action for a process with a realtime policy never names the policy
/// `normal`.
pub proof fn realtime_is_not_made_normal(
    rules: Seq<RuleView>,
    exceptions: ExceptionList,
    p: ProcessView,
    ancestors: Seq<Seq<char>>,
)
    requires
        has_realtime(p.sched_policy),
    ensures
        classified(rules, exceptions, p, ancestors) matches Some(a) ==> a.sched_policy != Some(
            "normal"@,
        ),
{
    lemma_not_normal(deciding_from(rules, p, first_name(ancestors), 0));
}

proof fn lemma_not_normal(rules: Seq<RuleView>)
    ensures
        combined(rules, true) matches Some(a) ==> a.sched_policy != Some("normal"@),
    decreases rules.len(),
{
    if rules.len() > 0 {
        lemma_not_normal(rules.drop_last());
    }
}

// ---------------------------------------------------------------------------
// Laws of matching
// ---------------------------------------------------------------------------

/// A process matches exactly when every predicate that is set holds of it: a
/// listed name, a listed beginning of the name, a listed part of the joined
/// command line, a listed executable, a listed user, all listed variables, at
/// least so many threads, at least so many megabytes, a listed parent, and a
/// cgroup path that fits.
pub proof fn every_predicate_counts(m: MatchersView, p: ProcessView, parent: Seq<char>)
    ensures
        accepts(m, p, parent) <==> {
            &&& m.comm.len() > 0 ==> m.comm.contains(p.comm)
            &&& m.comm_prefix.len() > 0 ==> exists|i: int|
                0 <= i < m.comm_prefix.len() && text::starts_with(p.comm, #[trigger] m.comm_prefix[i])
            &&& m.cmdline_contains.len() > 0 ==> exists|i: int|
                0 <= i < m.cmdline_contains.len() && text::contains(
                    text::join(p.cmdline, " "@),
                    #[trigger] m.cmdline_contains[i],
                )
            &&& m.exe_path.len() > 0 ==> p.exe is Some && exists|i: int|
                0 <= i < m.exe_path.len() && path::same_path_text(
                    #[trigger] m.exe_path[i],
                    p.exe->0,
                )
            &&& m.uid.len() > 0 ==> m.uid.contains(p.uid)
            &&& forall|v: Seq<char>| #[trigger]
                m.env_set.contains(v) ==> p.environ.dom().contains(v)
            &&& m.min_threads is Some ==> p.threads >= m.min_threads->0
            &&& m.min_rss_mb is Some ==> p.vm_rss_kb >= m.min_rss_mb->0 * 1024
            &&& m.parent_comm.len() > 0 ==> m.parent_comm.contains(parent)
            &&& m.cgroup_path_contains.len() > 0 ==> p.cgroup_path is Some && exists|i: int|
                0 <= i < m.cgroup_path_contains.len() && text::contains(
                    p.cgroup_path->0,
                    #[trigger] m.cgroup_path_contains[i],
                )
            &&& m.cgroup_path_glob is Some ==> p.cgroup_path is Some && glob(
                m.cgroup_path_glob->0,
                p.cgroup_path->0,
            )
            &&& m.cgroup_path_exact is Some ==> p.cgroup_path == m.cgroup_path_exact
        },
{
    if accepts(m, p, parent) {
        assert forall|v: Seq<char>| #[trigger] m.env_set.contains(v) implies p.environ.dom().contains(
            v,
        ) by {
            let i = choose|i: int| 0 <= i < m.env_set.len() && m.env_set[i] == v;
            assert(p.environ.dom().contains(m.env_set[i]));
        }
    }
    if forall|v: Seq<char>| #[trigger] m.env_set.contains(v) ==> p.environ.dom().contains(v) {
        assert forall|i: int| 0 <= i < m.env_set.len() implies p.environ.dom().contains(
            #[trigger] m.env_set[i],
        ) by {
            assert(m.env_set.contains(m.env_set[i]));
        }
    }
}

/// The minimum of memory and threads is a lower bound: a process that is like
/// one that matches, but uses more memory or has more threads, matches too.
pub proof fn bigger_processes_keep_matching(
    m: MatchersView,
    p: ProcessView,
    q: ProcessView,
    parent: Seq<char>,
)
    requires
        accepts(m, p, parent),
        q == (ProcessView { vm_rss_kb: q.vm_rss_kb, threads: q.threads, ..p }),
        q.vm_rss_kb >= p.vm_rss_kb,
        q.threads >= p.threads,
    ensures
        accepts(m, q, parent),
{
}

/// Matchers that ask for nothing.
pub open spec fn no_matchers() -> MatchersView {
    MatchersView {
        comm: Seq::empty(),
        comm_prefix: Seq::empty(),
        cmdline_contains: Seq::empty(),
        exe_path: Seq::empty(),
        uid: Seq::empty(),
        env_set: Seq::empty(),
        min_threads: None,
        min_rss_mb: None,
        parent_comm: Seq::empty(),
        cgroup_path_contains: Seq::empty(),
        cgroup_path_glob: None,
        cgroup_path_exact: None,
    }
}

/// Where only a minimum of memory is asked for, exactly the processes with at
/// least that many megabytes match; likewise with threads. Where nothing is
/// asked for, every process matches.
pub proof fn minimums_are_lower_bounds(
    megabytes: u64,
    threads: u32,
    p: ProcessView,
    parent: Seq<char>,
)
    ensures
        accepts(no_matchers(), p, parent),
        accepts(MatchersView { min_rss_mb: Some(megabytes), ..no_matchers() }, p, parent)
            <==> p.vm_rss_kb >= megabytes * 1024,
        accepts(MatchersView { min_threads: Some(threads), ..no_matchers() }, p, parent)
            <==> p.threads >= threads,
{
}

/// Listing more alternatives never loses a match.
pub proof fn more_alternatives_keep_matching(
    m: MatchersView,
    p: ProcessView,
    parent: Seq<char>,
    name: Seq<char>,
    user: u32,
)
    requires
        accepts(m, p, parent),
    ensures
        m.comm.len() > 0 ==> accepts(MatchersView { comm: m.comm.push(name), ..m }, p, parent),
        m.uid.len() > 0 ==> accepts(MatchersView { uid: m.uid.push(user), ..m }, p, parent),
        m.parent_comm.len() > 0 ==> accepts(
            MatchersView { parent_comm: m.parent_comm.push(name), ..m },
            p,
            parent,
        ),
{
    lemma_push_keeps(m.comm, name, p.comm);
    lemma_push_keeps(m.uid, user, p.uid);
    lemma_push_keeps(m.parent_comm, name, parent);
}

proof fn lemma_push_keeps<A>(s: Seq<A>, more: A, a: A)
    ensures
        s.contains(a) ==> s.push(more).contains(a),
{
    if s.contains(a) {
        let i = choose|i: int| 0 <= i < s.len() && s[i] == a;
        assert(s.push(more)[i] == a);
    }
}

/// A pattern without wildcards matches itself and nothing else.
pub proof fn plain_pattern_matches_itself(pattern: Seq<char>, s: Seq<char>)
    requires
        forall|i: int|
            0 <= i < pattern.len() ==> (#[trigger] pattern[i]) != '*' && pattern[i] != '?',
    ensures
        glob(pattern, s) <==> pattern == s,
    decreases pattern.len(),
{
    if pattern.len() == 0 {
        assert(s.len() == 0 <==> pattern =~= s);
    } else {
        assert(pattern[0] != '*');
        let rest = pattern.skip(1);
        assert forall|i: int| 0 <= i < rest.len() implies (#[trigger] rest[i]) != '*' && rest[i]
            != '?' by {
            assert(rest[i] == pattern[i + 1]);
        }
        plain_pattern_matches_itself(rest, s.skip(1));
        if glob(pattern, s) {
            assert(s =~= seq![s[0]] + s.skip(1));
            assert(pattern =~= seq![pattern[0]] + rest);
        }
    }
}

/// A pattern that ends in `*` after a plain text matches what begins with that
/// text.
pub proof fn trailing_star_matches_beginnings(plain: Seq<char>, s: Seq<char>)
    requires
        forall|i: int| 0 <= i < plain.len() ==> (#[trigger] plain[i]) != '*' && plain[i] != '?',
    ensures
        glob(plain.push('*'), s) <==> exists|rest: Seq<char>| s == #[trigger] (plain + rest),
    decreases plain.len(),
{
    let pattern = plain.push('*');
    if plain.len() == 0 {
        lemma_star_matches_all(s);
        assert(pattern =~= seq!['*']);
        assert(s =~= plain + s);
    } else {
        let tail = plain.skip(1);
        assert forall|i: int| 0 <= i < tail.len() implies (#[trigger] tail[i]) != '*' && tail[i]
            != '?' by {
            assert(tail[i] == plain[i + 1]);
        }
        assert(pattern.skip(1) =~= tail.push('*'));
        assert(pattern[0] == plain[0]);
        trailing_star_matches_beginnings(tail, s.skip(1));
        if glob(pattern, s) {
            let rest = choose|rest: Seq<char>| s.skip(1) == #[trigger] (tail + rest);
            assert(s =~= seq![s[0]] + s.skip(1));
            assert(s =~= plain + rest);
        }
        if exists|rest: Seq<char>| s == #[trigger] (plain + rest) {
            let rest = choose|rest: Seq<char>| s == #[trigger] (plain + rest);
            assert(s.skip(1) =~= tail + rest);
        }
    }
}

proof fn lemma_star_matches_all(s: Seq<char>)
    ensures
        glob(seq!['*'], s),
    decreases s.len(),
{
    if s.len() == 0 {
        assert(seq!['*'].skip(1) =~= Seq::<char>::empty());
        assert(glob(seq!['*'].skip(1), s));
    } else {
        lemma_star_matches_all(s.skip(1));
    }
}

/// A `?` stands for exactly one character, whatever it is.
pub proof fn question_mark_stands_for_one(pattern: Seq<char>, s: Seq<char>)
    ensures
        glob(seq!['?'] + pattern, s) <==> s.len() > 0 && glob(pattern, s.skip(1)),
{
    assert((seq!['?'] + pattern).skip(1) =~= pattern);
}

// ---------------------------------------------------------------------------
// Laws of rule files
// ---------------------------------------------------------------------------

/// Compiling a rule keeps what its file says: the name, the priority, every
/// field of the action and every predicate. A cgroup path is a pattern if it
/// holds a wildcard, and an exact path otherwise.
pub proof fn compiling_keeps_the_rule(r: RuleToml)
    ensures
        compiled_rule(r).name == r.name@,
        compiled_rule(r).priority == r.priority,
        compiled_rule(r).continue_ <==> r.continue_ || r.action.continue_ == Some(true),
        compiled_rule(r).action.rule_name == r.name@,
        compiled_rule(r).action.cgroup is Some <==> r.action.cgroup is Some,
        r.action.cgroup is Some ==> compiled_rule(r).action.cgroup == Some(r.action.cgroup->0@),
        compiled_rule(r).action.nice == r.action.nice,
        compiled_rule(r).action.sched_policy is Some <==> r.action.sched_policy is Some,
        r.action.sched_policy is Some ==> compiled_rule(r).action.sched_policy == Some(
            r.action.sched_policy->0@,
        ),
        compiled_rule(r).action.sched_priority == r.action.sched_priority,
        compiled_rule(r).action.oom_score_adj == r.action.oom_score_adj,
        compiled_rule(r).action.io_weight == r.action.io_weight,
        compiled_rule(r).action.recheck_secs == r.action.recheck_secs,
        compiled_rule(r).action.apply_to_children <==> r.action.apply_to_children == Some(true),
        compiled_rule(r).matchers.comm == r.match_.comm@.map_values(|s: String| s@),
        compiled_rule(r).matchers.comm_prefix == r.match_.comm_prefix@.map_values(|s: String| s@),
        compiled_rule(r).matchers.cmdline_contains == r.match_.cmdline_contains@.map_values(
            |s: String| s@,
        ),
        compiled_rule(r).matchers.exe_path == r.match_.exe_path@.map_values(|s: String| s@),
        compiled_rule(r).matchers.uid == r.match_.uid@,
        compiled_rule(r).matchers.env_set == r.match_.env_set@.map_values(|s: String| s@),
        compiled_rule(r).matchers.min_threads == r.match_.min_threads,
        compiled_rule(r).matchers.min_rss_mb == r.match_.min_rss_mb,
        compiled_rule(r).matchers.parent_comm == r.match_.parent_comm@.map_values(|s: String| s@),
        compiled_rule(r).matchers.cgroup_path_contains
            == r.match_.cgroup_path_contains@.map_values(|s: String| s@),
        r.match_.cgroup_path is None ==> compiled_rule(r).matchers.cgroup_path_glob is None
            && compiled_rule(r).matchers.cgroup_path_exact is None,
        r.match_.cgroup_path matches Some(p) ==> if p@.contains('*') || p@.contains('?') {
            compiled_rule(r).matchers.cgroup_path_glob == Some(p@)
                && compiled_rule(r).matchers.cgroup_path_exact is None
        } else {
            compiled_rule(r).matchers.cgroup_path_exact == Some(p@)
                && compiled_rule(r).matchers.cgroup_path_glob is None
        },
{
    let m = compiled_rule(r).matchers;
    assert(m.comm =~= r.match_.comm@.map_values(|s: String| s@));
    assert(m.comm_prefix =~= r.match_.comm_prefix@.map_values(|s: String| s@));
    assert(m.cmdline_contains =~= r.match_.cmdline_contains@.map_values(|s: String| s@));
    assert(m.exe_path =~= r.match_.exe_path@.map_values(|s: String| s@));
    assert(m.env_set =~= r.match_.env_set@.map_values(|s: String| s@));
    assert(m.parent_comm =~= r.match_.parent_comm@.map_values(|s: String| s@));
    assert(m.cgroup_path_contains =~= r.match_.cgroup_path_contains@.map_values(|s: String| s@));
}

/// Loading takes over exactly the rules that stand in the files.
pub proof fn loading_takes_every_rule(files: Seq<RuleFile>, r: RuleView)
    ensures
        by_priority(rules_in(files, files.len())).contains(r) <==> exists|f: int, i: int|
            0 <= f < files.len() && 0 <= i < files[f].rule@.len() && r == compiled_rule(
                #[trigger] files[f].rule@[i],
            ),
{
    let all = rules_in(files, files.len());
    by_priority_keeps_rules(all);
    all.to_multiset_ensures();
    by_priority(all).to_multiset_ensures();
    assert(by_priority(all).contains(r) <==> by_priority(all).to_multiset().count(r) > 0);
    assert(all.contains(r) <==> all.to_multiset().count(r) > 0);
    lemma_rules_in(files, files.len(), r);
}

proof fn lemma_rules_in(files: Seq<RuleFile>, n: nat, r: RuleView)
    requires
        n <= files.len(),
    ensures
        rules_in(files, n).contains(r) <==> exists|f: int, i: int|
            0 <= f < n && 0 <= i < files[f].rule@.len() && r == compiled_rule(
                #[trigger] files[f].rule@[i],
            ),
    decreases n,
{
    if n > 0 {
        let before = rules_in(files, (n - 1) as nat);
        let own = Seq::new(
            files[n - 1].rule@.len(),
            |i: int| compiled_rule(files[n - 1].rule@[i]),
        );
        lemma_rules_in(files, (n - 1) as nat, r);
        if rules_in(files, n).contains(r) {
            let k = choose|k: int| 0 <= k < (before + own).len() && (before + own)[k] == r;
            if k < before.len() {
                assert(before[k] == r);
                assert(before.contains(r));
            } else {
                assert(r == compiled_rule(files[n - 1].rule@[k - before.len()]));
            }
        }
        if exists|f: int, i: int|
            0 <= f < n && 0 <= i < files[f].rule@.len() && r == compiled_rule(
                #[trigger] files[f].rule@[i],
            ) {
            let (f, i) = choose|f: int, i: int|
                0 <= f < n && 0 <= i < files[f].rule@.len() && r == compiled_rule(
                    #[trigger] files[f].rule@[i],
                );
            if f < n - 1 {
                assert(before.contains(r));
                let k = choose|k: int| 0 <= k < before.len() && before[k] == r;
                assert((before + own)[k] == r);
            } else {
                assert((before + own)[before.len() + i] == r);
            }
        }
    }
}

/// The rules of earlier files come before those of later ones, and those of
/// one file keep their order.
pub proof fn files_are_read_one_after_the_other(files: Seq<RuleFile>, n: nat)
    requires
        n < files.len(),
    ensures
        rules_in(files, n + 1).len() == rules_in(files, n).len() + files[n as int].rule@.len(),
        forall|k: int|
            0 <= k < rules_in(files, n).len() ==> rules_in(files, n + 1)[k] == #[trigger] rules_in(
                files,
                n,
            )[k],
        forall|i: int|
            0 <= i < files[n as int].rule@.len() ==> rules_in(files, n + 1)[rules_in(
                files,
                n,
            ).len() + i] == compiled_rule(#[trigger] files[n as int].rule@[i]),
        rules_in(files, 0).len() == 0,
{
}

/// A rule file is one whose name ends in `.json` or `.toml`, and nothing else
/// is loaded.
pub proof fn rule_files_are_told_by_their_ending(names: Seq<Seq<char>>, n: nat, name: Seq<char>)
    requires
        n <= names.len(),
    ensures
        rule_file_names(names, n).contains(name) <==> names.take(n as int).contains(name) && (
        path::extension(name) == Some("json"@) || path::extension(name) == Some("toml"@)),
    decreases n,
{
    if n > 0 {
        let done = rule_file_names(names, (n - 1) as nat);
        let last = names[n - 1];
        let before = names.take(n - 1);
        rule_files_are_told_by_their_ending(names, (n - 1) as nat, name);
        assert(names.take(n as int) =~= before.push(last));
        lemma_push_keeps(before, last, name);
        lemma_push_keeps(done, last, name);
        assert(before.push(last)[before.len() as int] == last);
        assert(done.push(last)[done.len() as int] == last);
        if before.push(last).contains(name) && !before.contains(name) {
            let k = choose|k: int|
                0 <= k < before.push(last).len() && before.push(last)[k] == name;
            if k < before.len() {
                assert(before[k] == name);
            }
        }
        if done.push(last).contains(name) && !done.contains(name) {
            let k = choose|k: int| 0 <= k < done.push(last).len() && done.push(last)[k] == name;
            if k < done.len() {
                assert(done[k] == name);
            }
        }
    }
}

/// The first character in which two names differ decides their order, and a
/// name comes before its continuations.
pub proof fn first_difference_decides(
    common: Seq<char>,
    x: char,
    y: char,
    a: Seq<char>,
    b: Seq<char>,
)
    requires
        x < y,
    ensures
        alphabetical(common + seq![x] + a, common + seq![y] + b),
        !alphabetical(common + seq![y] + b, common + seq![x] + a),
        alphabetical(common, common + a),
        a.len() > 0 ==> !alphabetical(common + a, common),
    decreases common.len(),
{
    let l = common + seq![x] + a;
    let r = common + seq![y] + b;
    if common.len() > 0 {
        let tail = common.skip(1);
        first_difference_decides(tail, x, y, a, b);
        assert(l.skip(1) =~= tail + seq![x] + a);
        assert(r.skip(1) =~= tail + seq![y] + b);
        assert((common + a).skip(1) =~= tail + a);
        assert(l[0] == common[0] && r[0] == common[0] && (common + a)[0] == common[0]);
    } else {
        assert(l[0] == x && r[0] == y);
    }
}

/// A profile takes each field from itself where it sets it, and from its
/// parent where it does not.
pub proof fn profile_overrides_its_parent(
    prof: ProfileToml,
    map: Map<Seq<char>, ActionTomlView>,
)
    requires
        prof.inherits is Some,
        map.dom().contains(prof.inherits->0@),
    ensures
        ({
            let own = prof.action@;
            let base = map[prof.inherits->0@];
            let r = resolved_profile(prof, map);
            &&& r.cgroup == if own.cgroup is Some {
                own.cgroup
            } else {
                base.cgroup
            }
            &&& r.nice == if own.nice is Some {
                own.nice
            } else {
                base.nice
            }
            &&& r.sched_policy == if own.sched_policy is Some {
                own.sched_policy
            } else {
                base.sched_policy
            }
            &&& r.sched_priority == if own.sched_priority is Some {
                own.sched_priority
            } else {
                base.sched_priority
            }
            &&& r.oom_score_adj == if own.oom_score_adj is Some {
                own.oom_score_adj
            } else {
                base.oom_score_adj
            }
            &&& r.io_weight == if own.io_weight is Some {
                own.io_weight
            } else {
                base.io_weight
            }
            &&& r.recheck_secs == if own.recheck_secs is Some {
                own.recheck_secs
            } else {
                base.recheck_secs
            }
            &&& r.apply_to_children == if own.apply_to_children is Some {
                own.apply_to_children
            } else {
                base.apply_to_children
            }
            &&& r.script == if own.script is Some {
                own.script
            } else {
                base.script
            }
            &&& r.continue_ == if own.continue_ is Some {
                own.continue_
            } else {
                base.continue_
            }
        }),
{
}

/// A profile without a known parent stands for itself.
pub proof fn profile_without_parent_stands_alone(
    prof: ProfileToml,
    map: Map<Seq<char>, ActionTomlView>,
)
    requires
        prof.inherits matches Some(parent) ==> !map.dom().contains(parent@),
    ensures
        resolved_profile(prof, map) == prof.action@,
{
}

/// Registering a profile makes it known under its name, resolved against what
/// was known before, and leaves the profiles of other names as they are.
pub proof fn registering_adds_the_profile(
    known: Map<Seq<char>, ActionTomlView>,
    profiles: Seq<ProfileToml>,
    n: nat,
    name: Seq<char>,
)
    requires
        n < profiles.len(),
    ensures
        ({
            let before = registered(known, profiles, n);
            let after = registered(known, profiles, n + 1);
            &&& after.dom().contains(profiles[n as int].name@)
            &&& after[profiles[n as int].name@] == resolved_profile(profiles[n as int], before)
            &&& name != profiles[n as int].name@ ==> (after.dom().contains(name)
                <==> before.dom().contains(name)) && after[name] == before[name]
        }),
        registered(known, profiles, 0) == known,
{
}

// ---------------------------------------------------------------------------
// Laws of classification
// ---------------------------------------------------------------------------

/// A process is exempt exactly when its own name is listed, or the name of one
/// of its ancestors is.
pub proof fn exempt_by_name_or_ancestor(
    list: ExceptionList,
    comm: Seq<char>,
    ancestors: Seq<Seq<char>>,
)
    ensures
        exempt(list, comm, ancestors) <==> {
            ||| exists|i: int|
                0 <= i < list.exact_names@.len() && (#[trigger] list.exact_names@[i])@ == comm
            ||| exists|i: int, k: int|
                0 <= i < list.ancestor_names@.len() && 0 <= k < ancestors.len() && (
                #[trigger] list.ancestor_names@[i])@ == #[trigger] ancestors[k]
        },
{
    let exact = text::texts(list.exact_names@);
    let anc = text::texts(list.ancestor_names@);
    if exact.contains(comm) {
        let i = choose|i: int| 0 <= i < exact.len() && exact[i] == comm;
        assert(list.exact_names@[i]@ == comm);
    }
    if exists|i: int|
        0 <= i < list.exact_names@.len() && (#[trigger] list.exact_names@[i])@ == comm {
        let i = choose|i: int|
            0 <= i < list.exact_names@.len() && (#[trigger] list.exact_names@[i])@ == comm;
        assert(exact[i] == comm);
    }
    if exists|k: int| 0 <= k < ancestors.len() && text::one_of(anc, #[trigger] ancestors[k]) {
        let k = choose|k: int|
            0 <= k < ancestors.len() && text::one_of(anc, #[trigger] ancestors[k]);
        let i = choose|i: int| 0 <= i < anc.len() && anc[i] == ancestors[k];
        assert(list.ancestor_names@[i]@ == ancestors[k]);
    }
    if exists|i: int, k: int|
        0 <= i < list.ancestor_names@.len() && 0 <= k < ancestors.len() && (
        #[trigger] list.ancestor_names@[i])@ == #[trigger] ancestors[k] {
        let (i, k) = choose|i: int, k: int|
            0 <= i < list.ancestor_names@.len() && 0 <= k < ancestors.len() && (
            #[trigger] list.ancestor_names@[i])@ == #[trigger] ancestors[k];
        assert(anc[i] == ancestors[k]);
        assert(text::one_of(anc, ancestors[k]));
    }
}

/// The tools that set priorities themselves, and what they start, are exempt,
/// and so are the message bus and the service manager.
pub proof fn tools_that_set_priorities_are_exempt(name: Seq<char>)
    ensures
        exempt_names().contains(name) <==> name == "chrt"@ || name == "dbus"@ || name
            == "dbus-broker"@ || name == "gamemoderun"@ || name == "ionice"@ || name == "nice"@
            || name == "rtkit-daemon"@ || name == "taskset"@ || name == "schedtool"@ || name
            == "systemd"@,
        exempt_ancestors().contains(name) <==> name == "chrt"@ || name == "gamemoderun"@ || name
            == "ionice"@ || name == "nice"@ || name == "taskset"@ || name == "schedtool"@,
        exempt_ancestors().contains(name) ==> exempt_names().contains(name),
{
    let n = exempt_names();
    let a = exempt_ancestors();
    assert(n[0] == "chrt"@ && n[1] == "dbus"@ && n[2] == "dbus-broker"@ && n[3] == "gamemoderun"@
        && n[4] == "ionice"@ && n[5] == "nice"@ && n[6] == "rtkit-daemon"@ && n[7] == "taskset"@
        && n[8] == "schedtool"@ && n[9] == "systemd"@);
    assert(a[0] == "chrt"@ && a[1] == "gamemoderun"@ && a[2] == "ionice"@ && a[3] == "nice"@
        && a[4] == "taskset"@ && a[5] == "schedtool"@);
}

/// Whether rule `k` has a say about a process: it matches, and every rule
/// before it that matches says to continue.
pub open spec fn has_a_say(rules: Seq<RuleView>, p: ProcessView, parent: Seq<char>, k: int) -> bool {
    &&& 0 <= k < rules.len()
    &&& accepts(rules[k].matchers, p, parent)
    &&& forall|j: int|
        0 <= j < k && accepts((#[trigger] rules[j]).matchers, p, parent) ==> rules[j].continue_
}

proof fn lemma_first_setter<A>(
    rules: Seq<RuleView>,
    p: ProcessView,
    parent: Seq<char>,
    realtime: bool,
    from: int,
    field: spec_fn(ActionView) -> Option<A>,
    k: int,
)
    requires
        0 <= from <= k < rules.len(),
        accepts(rules[k].matchers, p, parent),
        forall|j: int|
            from <= j < k && accepts((#[trigger] rules[j]).matchers, p, parent) ==> rules[j].continue_
                && field(adapted(rules[j], realtime)) is None,
        field(adapted(rules[k], realtime)) is Some,
    ensures
        ({
            let d = deciding_from(rules, p, parent, from);
            first_set(Seq::new(d.len(), |i: int| adapted(d[i], realtime)), field) == field(
                adapted(rules[k], realtime),
            )
        }),
    decreases rules.len() - from,
{
    let d = deciding_from(rules, p, parent, from);
    let acts = Seq::new(d.len(), |i: int| adapted(d[i], realtime));
    if from == k {
        assert(d[0] == rules[k]);
        assert(acts[0] == adapted(rules[k], realtime));
    } else {
        lemma_first_setter(rules, p, parent, realtime, from + 1, field, k);
        if accepts(rules[from].matchers, p, parent) {
            let e = deciding_from(rules, p, parent, from + 1);
            assert(d =~= seq![rules[from]] + e);
            assert(acts.skip(1) =~= Seq::new(e.len(), |i: int| adapted(e[i], realtime)));
            assert(acts[0] == adapted(rules[from], realtime));
        }
    }
}

proof fn lemma_set_by_some_rule<A>(
    rules: Seq<RuleView>,
    p: ProcessView,
    parent: Seq<char>,
    realtime: bool,
    from: int,
    field: spec_fn(ActionView) -> Option<A>,
) -> (k: int)
    requires
        0 <= from,
        forall|j: int|
            0 <= j < from && j < rules.len() && accepts((#[trigger] rules[j]).matchers, p, parent)
                ==> rules[j].continue_,
        ({
            let d = deciding_from(rules, p, parent, from);
            first_set(Seq::new(d.len(), |i: int| adapted(d[i], realtime)), field) is Some
        }),
    ensures
        has_a_say(rules, p, parent, k),
        ({
            let d = deciding_from(rules, p, parent, from);
            first_set(Seq::new(d.len(), |i: int| adapted(d[i], realtime)), field) == field(
                adapted(rules[k], realtime),
            )
        }),
    decreases rules.len() - from,
{
    let d = deciding_from(rules, p, parent, from);
    let acts = Seq::new(d.len(), |i: int| adapted(d[i], realtime));
    if from >= rules.len() {
        assert(acts.len() == 0);
        assert(false);
        0
    } else if !accepts(rules[from].matchers, p, parent) {
        lemma_set_by_some_rule(rules, p, parent, realtime, from + 1, field)
    } else {
        assert(d[0] == rules[from]);
        assert(acts[0] == adapted(rules[from], realtime));
        if field(acts[0]) is Some {
            from
        } else {
            if rules[from].continue_ {
                let e = deciding_from(rules, p, parent, from + 1);
                assert(d =~= seq![rules[from]] + e);
                assert(acts.skip(1) =~= Seq::new(e.len(), |i: int| adapted(e[i], realtime)));
            } else {
                assert(acts.skip(1) =~= Seq::empty());
                assert(first_set(acts.skip(1), field) is None);
            }
            lemma_set_by_some_rule(rules, p, parent, realtime, from + 1, field)
        }
    }
}

proof fn lemma_deciding_nonempty_at(
    rules: Seq<RuleView>,
    p: ProcessView,
    parent: Seq<char>,
    from: int,
    k: int,
)
    requires
        0 <= from <= k < rules.len(),
        accepts(rules[k].matchers, p, parent),
        forall|j: int| from <= j < k ==> !accepts((#[trigger] rules[j]).matchers, p, parent),
    ensures
        deciding_from(rules, p, parent, from).len() > 0,
        deciding_from(rules, p, parent, from)[0] == rules[k],
    decreases k - from,
{
    if from < k {
        lemma_deciding_nonempty_at(rules, p, parent, from + 1, k);
    }
}

/// Each field of the action comes from the first rule that matches and sets
/// it, as long as the rules before it that match say to continue. The first
/// rule that matches gives the action its name and decides about the children.
pub proof fn first_rule_that_sets_a_field_decides(
    rules: Seq<RuleView>,
    exceptions: ExceptionList,
    p: ProcessView,
    ancestors: Seq<Seq<char>>,
    parent: Seq<char>,
    k: int,
)
    requires
        !exempt(exceptions, p.comm, ancestors),
        parent == (if ancestors.len() > 0 {
            ancestors[0]
        } else {
            Seq::empty()
        }),
        has_a_say(rules, p, parent, k),
    ensures
        ({
            let a = classified(rules, exceptions, p, ancestors)->0;
            let own = rules[k].action;
            let realtime = p.sched_policy is Fifo || p.sched_policy is RoundRobin
                || p.sched_policy is Deadline;
            &&& classified(rules, exceptions, p, ancestors) is Some
            &&& own.cgroup is Some && (forall|j: int|
                0 <= j < k && accepts((#[trigger] rules[j]).matchers, p, parent)
                    ==> rules[j].action.cgroup is None) ==> a.cgroup == own.cgroup
            &&& own.nice is Some && (forall|j: int|
                0 <= j < k && accepts((#[trigger] rules[j]).matchers, p, parent)
                    ==> rules[j].action.nice is None) ==> a.nice == own.nice
            &&& own.sched_policy is Some && !(realtime && own.sched_policy == Some("normal"@)) && (
            forall|j: int|
                0 <= j < k && accepts((#[trigger] rules[j]).matchers, p, parent)
                    ==> rules[j].action.sched_policy is None || (realtime
                    && rules[j].action.sched_policy == Some("normal"@))) ==> a.sched_policy
                == own.sched_policy
            &&& own.sched_priority is Some && (forall|j: int|
                0 <= j < k && accepts((#[trigger] rules[j]).matchers, p, parent)
                    ==> rules[j].action.sched_priority is None) ==> a.sched_priority
                == own.sched_priority
            &&& own.oom_score_adj is Some && (forall|j: int|
                0 <= j < k && accepts((#[trigger] rules[j]).matchers, p, parent)
                    ==> rules[j].action.oom_score_adj is None) ==> a.oom_score_adj
                == own.oom_score_adj
            &&& own.io_weight is Some && (forall|j: int|
                0 <= j < k && accepts((#[trigger] rules[j]).matchers, p, parent)
                    ==> rules[j].action.io_weight is None) ==> a.io_weight == own.io_weight
            &&& own.recheck_secs is Some && (forall|j: int|
                0 <= j < k && accepts((#[trigger] rules[j]).matchers, p, parent)
                    ==> rules[j].action.recheck_secs is None) ==> a.recheck_secs
                == own.recheck_secs
            &&& (forall|j: int|
                0 <= j < k ==> !accepts((#[trigger] rules[j]).matchers, p, parent))
                ==> a.rule_name == rules[k].name && a.apply_to_children == own.apply_to_children
        }),
{
    let realtime = has_realtime(p.sched_policy);
    let d = deciding_from(rules, p, parent, 0);
    let own = rules[k].action;
    assert(parent =~= first_name(ancestors));
    lemma_deciding_nonempty(rules, p, parent, 0);
    assert(d.len() > 0);
    lemma_combined_some(d, realtime);
    first_match_wins_for_each_field(d, realtime);
    first_match_names_the_action(d, realtime);
    if own.cgroup is Some && (forall|j: int|
        0 <= j < k && accepts((#[trigger] rules[j]).matchers, p, parent)
            ==> rules[j].action.cgroup is None) {
        lemma_first_setter(rules, p, parent, realtime, 0, |x: ActionView| x.cgroup, k);
    }
    if own.nice is Some && (forall|j: int|
        0 <= j < k && accepts((#[trigger] rules[j]).matchers, p, parent)
            ==> rules[j].action.nice is None) {
        lemma_first_setter(rules, p, parent, realtime, 0, |x: ActionView| x.nice, k);
    }
    if own.sched_policy is Some && !(realtime && own.sched_policy == Some("normal"@)) && (forall|
        j: int,
    |
        0 <= j < k && accepts((#[trigger] rules[j]).matchers, p, parent)
            ==> rules[j].action.sched_policy is None || (realtime && rules[j].action.sched_policy
            == Some("normal"@))) {
        lemma_first_setter(rules, p, parent, realtime, 0, |x: ActionView| x.sched_policy, k);
    }
    if own.sched_priority is Some && (forall|j: int|
        0 <= j < k && accepts((#[trigger] rules[j]).matchers, p, parent)
            ==> rules[j].action.sched_priority is None) {
        lemma_first_setter(rules, p, parent, realtime, 0, |x: ActionView| x.sched_priority, k);
    }
    if own.oom_score_adj is Some && (forall|j: int|
        0 <= j < k && accepts((#[trigger] rules[j]).matchers, p, parent)
            ==> rules[j].action.oom_score_adj is None) {
        lemma_first_setter(rules, p, parent, realtime, 0, |x: ActionView| x.oom_score_adj, k);
    }
    if own.io_weight is Some && (forall|j: int|
        0 <= j < k && accepts((#[trigger] rules[j]).matchers, p, parent)
            ==> rules[j].action.io_weight is None) {
        lemma_first_setter(rules, p, parent, realtime, 0, |x: ActionView| x.io_weight, k);
    }
    if own.recheck_secs is Some && (forall|j: int|
        0 <= j < k && accepts((#[trigger] rules[j]).matchers, p, parent)
            ==> rules[j].action.recheck_secs is None) {
        lemma_first_setter(rules, p, parent, realtime, 0, |x: ActionView| x.recheck_secs, k);
    }
    if forall|j: int| 0 <= j < k ==> !accepts((#[trigger] rules[j]).matchers, p, parent) {
        lemma_deciding_nonempty_at(rules, p, parent, 0, k);
    }
}

/// Nothing is made up: every field that the action sets is set so by a rule
/// that has a say.
pub proof fn action_holds_only_what_rules_say(
    rules: Seq<RuleView>,
    exceptions: ExceptionList,
    p: ProcessView,
    ancestors: Seq<Seq<char>>,
    parent: Seq<char>,
)
    requires
        parent == (if ancestors.len() > 0 {
            ancestors[0]
        } else {
            Seq::empty()
        }),
        classified(rules, exceptions, p, ancestors) is Some,
    ensures
        ({
            let a = classified(rules, exceptions, p, ancestors)->0;
            &&& a.cgroup is Some ==> exists|k: int| #[trigger]
                has_a_say(rules, p, parent, k) && rules[k].action.cgroup == a.cgroup
            &&& a.nice is Some ==> exists|k: int| #[trigger]
                has_a_say(rules, p, parent, k) && rules[k].action.nice == a.nice
            &&& a.sched_policy is Some ==> exists|k: int| #[trigger]
                has_a_say(rules, p, parent, k) && rules[k].action.sched_policy == a.sched_policy
            &&& a.sched_priority is Some ==> exists|k: int| #[trigger]
                has_a_say(rules, p, parent, k) && rules[k].action.sched_priority == a.sched_priority
            &&& a.oom_score_adj is Some ==> exists|k: int| #[trigger]
                has_a_say(rules, p, parent, k) && rules[k].action.oom_score_adj == a.oom_score_adj
            &&& a.io_weight is Some ==> exists|k: int| #[trigger]
                has_a_say(rules, p, parent, k) && rules[k].action.io_weight == a.io_weight
            &&& a.recheck_secs is Some ==> exists|k: int| #[trigger]
                has_a_say(rules, p, parent, k) && rules[k].action.recheck_secs == a.recheck_secs
        }),
{
    let realtime = has_realtime(p.sched_policy);
    let a = classified(rules, exceptions, p, ancestors)->0;
    let d = deciding_from(rules, p, parent, 0);
    assert(parent =~= first_name(ancestors));
    lemma_combined_some(d, realtime);
    first_match_wins_for_each_field(d, realtime);
    if a.cgroup is Some {
        let k = lemma_set_by_some_rule(rules, p, parent, realtime, 0, |x: ActionView| x.cgroup);
        assert(has_a_say(rules, p, parent, k));
    }
    if a.nice is Some {
        let k = lemma_set_by_some_rule(rules, p, parent, realtime, 0, |x: ActionView| x.nice);
        assert(has_a_say(rules, p, parent, k));
    }
    if a.sched_policy is Some {
        let k = lemma_set_by_some_rule(
            rules,
            p,
            parent,
            realtime,
            0,
            |x: ActionView| x.sched_policy,
        );
        assert(has_a_say(rules, p, parent, k));
    }
    if a.sched_priority is Some {
        let k = lemma_set_by_some_rule(
            rules,
            p,
            parent,
            realtime,
            0,
            |x: ActionView| x.sched_priority,
        );
        assert(has_a_say(rules, p, parent, k));
    }
    if a.oom_score_adj is Some {
        let k = lemma_set_by_some_rule(
            rules,
            p,
            parent,
            realtime,
            0,
            |x: ActionView| x.oom_score_adj,
        );
        assert(has_a_say(rules, p, parent, k));
    }
    if a.io_weight is Some {
        let k = lemma_set_by_some_rule(rules, p, parent, realtime, 0, |x: ActionView| x.io_weight);
        assert(has_a_say(rules, p, parent, k));
    }
    if a.recheck_secs is Some {
        let k = lemma_set_by_some_rule(
            rules,
            p,
            parent,
            realtime,
            0,
            |x: ActionView| x.recheck_secs,
        );
        assert(has_a_say(rules, p, parent, k));
    }
}

/// Merging two actions keeps what the first sets and fills the rest from the
/// second; the name and the children are the business of the first.
pub proof fn merging_keeps_what_is_set(dst: ActionView, src: ActionView)
    ensures
        filled(dst, src).cgroup == if dst.cgroup is Some {
            dst.cgroup
        } else {
            src.cgroup
        },
        filled(dst, src).nice == if dst.nice is Some {
            dst.nice
        } else {
            src.nice
        },
        filled(dst, src).sched_policy == if dst.sched_policy is Some {
            dst.sched_policy
        } else {
            src.sched_policy
        },
        filled(dst, src).sched_priority == if dst.sched_priority is Some {
            dst.sched_priority
        } else {
            src.sched_priority
        },
        filled(dst, src).oom_score_adj == if dst.oom_score_adj is Some {
            dst.oom_score_adj
        } else {
            src.oom_score_adj
        },
        filled(dst, src).io_weight == if dst.io_weight is Some {
            dst.io_weight
        } else {
            src.io_weight
        },
        filled(dst, src).recheck_secs == if dst.recheck_secs is Some {
            dst.recheck_secs
        } else {
            src.recheck_secs
        },
        filled(dst, src).apply_to_children == dst.apply_to_children,
        filled(dst, src).rule_name == dst.rule_name,
        filled(dst, filled(dst, src)) == filled(dst, src),
{
}

/// A pattern is matched from left to right: a star stands for any text, and
/// every other character for itself, or for any one where it is a question
/// mark.
pub proof fn star_stands_for_any_text(c: char, pattern: Seq<char>, s: Seq<char>)
    ensures
        glob(Seq::empty(), s) <==> s.len() == 0,
        glob(seq!['*'] + pattern, s) <==> exists|k: int|
            0 <= k <= s.len() && glob(pattern, #[trigger] s.skip(k)),
        c != '*' ==> (glob(seq![c] + pattern, s) <==> s.len() > 0 && (c == '?' || c == s[0]) && glob(
            pattern,
            s.skip(1),
        )),
    decreases s.len(),
{
    let starred = seq!['*'] + pattern;
    assert(starred.skip(1) =~= pattern);
    assert((seq![c] + pattern).skip(1) =~= pattern);
    assert(s.skip(0) =~= s);
    if s.len() > 0 {
        let rest = s.skip(1);
        star_stands_for_any_text(c, pattern, rest);
        assert forall|k: int| 0 <= k <= rest.len() implies #[trigger] rest.skip(k) == s.skip(
            k + 1,
        ) by {
            assert(rest.skip(k) =~= s.skip(k + 1));
        }
        if exists|k: int| 0 <= k <= s.len() && glob(pattern, #[trigger] s.skip(k)) {
            let k = choose|k: int| 0 <= k <= s.len() && glob(pattern, #[trigger] s.skip(k));
            if k > 0 {
                assert(rest.skip(k - 1) == s.skip(k));
            }
        }
    } else {
        assert forall|k: int| 0 <= k <= s.len() implies #[trigger] s.skip(k) == s by {
            assert(s.skip(k) =~= s);
        }
    }
}

/// A rule file is told by what follows the last dot of its name.
pub proof fn kind_is_told_by_the_ending(name: Seq<char>)
    ensures
        kind_of(name) == Some(RuleFileKind::Json) <==> path::extension(name) == Some("json"@),
        kind_of(name) == Some(RuleFileKind::Toml) <==> path::extension(name) == Some("toml"@),
        kind_of(name) is None <==> path::extension(name) != Some("json"@) && path::extension(name)
            != Some("toml"@),
{
    reveal_strlit("json");
    reveal_strlit("toml");
    assert("json"@[0] == 'j' && "toml"@[0] == 't');
}

/// A profile is found under its name, and a later one of that name takes its
/// place.
pub proof fn later_profile_wins(
    profiles: Seq<(String, ActionToml)>,
    name: String,
    action: ActionToml,
    other: Seq<char>,
)
    ensures
        profile_map(Seq::empty()) == Map::<Seq<char>, ActionTomlView>::empty(),
        profile_map(profiles.push((name, action))).dom().contains(name@),
        profile_map(profiles.push((name, action)))[name@] == action@,
        other != name@ ==> (profile_map(profiles.push((name, action))).dom().contains(other)
            <==> profile_map(profiles).dom().contains(other)),
        other != name@ && profile_map(profiles).dom().contains(other) ==> profile_map(
            profiles.push((name, action)),
        )[other] == profile_map(profiles)[other],
{
    assert(profiles.push((name, action)).drop_last() =~= profiles);
}

/// What an action says is each of its fields, and a choice says what its
/// action does.
pub proof fn action_shows_its_fields(a: Action)
    ensures
        opt_action(Some(a)) == Some(a@),
        opt_action(None) is None,
        a.cgroup matches Some(s) ==> a@.cgroup == Some(s@),
        a.cgroup is None ==> a@.cgroup is None,
        a@.nice == a.nice,
        a.sched_policy matches Some(s) ==> a@.sched_policy == Some(s@),
        a.sched_policy is None ==> a@.sched_policy is None,
        a@.sched_priority == a.sched_priority,
        a@.oom_score_adj == a.oom_score_adj,
        a@.io_weight == a.io_weight,
        a@.recheck_secs == a.recheck_secs,
        a@.apply_to_children == a.apply_to_children,
        a@.rule_name == a.rule_name@,
{
}

/// What a rule says is each of its parts, and rules in a sequence are shown one
/// by one.
pub proof fn rules_show_their_parts(rules: Seq<Rule>, i: int)
    requires
        0 <= i < rules.len(),
    ensures
        rule_views(rules).len() == rules.len(),
        rule_views(rules)[i].name == rules[i].name@,
        rule_views(rules)[i].priority == rules[i].priority,
        rule_views(rules)[i].continue_ == rules[i].continue_,
        rule_views(rules)[i].action == rules[i].action@,
        rule_views(rules)[i].matchers == rules[i].matchers@,
        rules[i].matchers@.uid == rules[i].matchers.uid@,
        rules[i].matchers@.min_threads == rules[i].matchers.min_threads,
        rules[i].matchers@.min_rss_mb == rules[i].matchers.min_rss_mb,
        rules[i].matchers@.comm == rules[i].matchers.comm@.map_values(|s: String| s@),
        rules[i].matchers@.env_set == rules[i].matchers.env_set@.map_values(|s: String| s@),
{
    let m = rules[i].matchers;
    assert(m@.comm =~= m.comm@.map_values(|s: String| s@));
    assert(m@.env_set =~= m.env_set@.map_values(|s: String| s@));
}

} // verus!
