//! Which file-system events concern skills, and the debouncing of the
//! "skills changed" notification.
use vstd::prelude::*;
use crate::terminal_multiplexer::words_view;

verus! {

pub const SKILLS_DIR: &'static str = "skills";

/// The quiet time after the last skill event before an update is announced.
pub const DEBOUNCE_WINDOW_MS: u64 = 250;

/// What `Path::starts_with` says: `base` is a prefix of `path`, component by component.
pub uninterp spec fn path_starts_with(path: Seq<char>, base: Seq<char>) -> bool;

/// The components of a path, each as `Component::as_os_str` gives it.
pub uninterp spec fn path_components(path: Seq<char>) -> Seq<Seq<char>>;

/// Relies on `Path::starts_with`, which compares whole components.
#[verifier::external_body]
fn path_has_prefix(path: &str, base: &str) -> (r: bool)
    ensures
        r == path_starts_with(path@, base@),
{
    std::path::Path::new(path).starts_with(base)
}

/// Relies on `Path::components`; each component is handed back as its text.
#[verifier::external_body]
fn component_names(path: &str) -> (r: Vec<String>)
    ensures
        words_view(r@) == path_components(path@),
{
    std::path::Path::new(path).components().map(|c| c.as_os_str().to_string_lossy().into_owned()).collect()
}

/// Whether `path` lies under one of the skills roots or passes through a
/// directory named `skills`.
pub open spec fn is_skills_path(path: Seq<char>, roots: Seq<Seq<char>>) -> bool {
    (exists|i: int| 0 <= i < roots.len() && path_starts_with(path, roots[i]))
        || path_components(path).contains(SKILLS_DIR@)
}

pub fn is_skills_root_path(path: &str, skills_roots: &[String]) -> (r: bool)
    ensures
        r == is_skills_path(path@, words_view(skills_roots@)),
{
    let mut i: usize = 0;
    while i < skills_roots.len()
        invariant
            i <= skills_roots@.len(),
            forall|j: int| 0 <= j < i ==> !path_starts_with(path@, #[trigger] skills_roots@[j]@),
        decreases skills_roots@.len() - i,
    {
        if path_has_prefix(path, skills_roots[i].as_str()) {
            assert(words_view(skills_roots@)[i as int] == skills_roots@[i as int]@);
            return true;
        }
        i = i + 1;
    }
    let components = component_names(path);
    let skills_dir = SKILLS_DIR.to_owned();
    let mut j: usize = 0;
    while j < components.len()
        invariant
            j <= components@.len(),
            skills_dir@ == SKILLS_DIR@,
            words_view(components@) == path_components(path@),
            forall|k: int| 0 <= k < j ==> components@[k]@ != SKILLS_DIR@,
        decreases components@.len() - j,
    {
        if components[j] == skills_dir {
            assert(path_components(path@)[j as int] == SKILLS_DIR@);
            assert(path_components(path@).contains(SKILLS_DIR@));
            return true;
        }
        j = j + 1;
    }
    proof {
        assert forall|k: int| 0 <= k < words_view(skills_roots@).len() implies !path_starts_with(
            path@,
            words_view(skills_roots@)[k],
        ) by {
            assert(words_view(skills_roots@)[k] == skills_roots@[k]@);
        }
        assert(!words_view(components@).contains(SKILLS_DIR@)) by {
            if words_view(components@).contains(SKILLS_DIR@) {
                let k = choose|k: int|
                    0 <= k < words_view(components@).len() && words_view(components@)[k]
                        == SKILLS_DIR@;
                assert(words_view(components@)[k] == components@[k]@);
            }
        }
    }
    false
}

/// A file-system event concerns skills when it is not a mere access and one
/// of its paths is a skills path.
pub fn is_skill_event(is_access: bool, paths: &[String], skills_roots: &[String]) -> (r: bool)
    ensures
        r == (!is_access && exists|i: int|
            0 <= i < paths@.len() && is_skills_path(paths@[i]@, words_view(skills_roots@))),
{
    if is_access {
        return false;
    }
    let mut i: usize = 0;
    while i < paths.len()
        invariant
            i <= paths@.len(),
            !is_access,
            forall|j: int|
                0 <= j < i ==> !is_skills_path(#[trigger] paths@[j]@, words_view(skills_roots@)),
        decreases paths@.len() - i,
    {
        let p = paths[i].as_str();
        if is_skills_root_path(p, skills_roots) {
            assert(p@ == paths@[i as int]@);
            assert(0 <= i < paths@.len() && is_skills_path(paths@[i as int]@, words_view(skills_roots@)));
            return true;
        }
        i = i + 1;
    }
    false
}

/// The debouncing state of the skills watcher: whether an update is
/// waiting to be announced, and from when on (in milliseconds).
pub struct SkillsDebounce {
    pub pending: bool,
    pub next_emit_ms: u64,
}

pub open spec fn deadline_after(now_ms: u64) -> u64 {
    if now_ms <= u64::MAX - DEBOUNCE_WINDOW_MS {
        (now_ms + DEBOUNCE_WINDOW_MS) as u64
    } else {
        u64::MAX
    }
}

impl SkillsDebounce {
    pub fn new(now_ms: u64) -> (r: Self)
        ensures
            !r.pending,
            r.next_emit_ms == now_ms,
    {
        SkillsDebounce { pending: false, next_emit_ms: now_ms }
    }

    /// A watcher event arrived at `now_ms`: a skill event (re)starts the
    /// quiet window, any other leaves the state as it is.
    pub fn on_event(&mut self, skill_event: bool, now_ms: u64)
        ensures
            skill_event ==> final(self).pending && final(self).next_emit_ms == deadline_after(now_ms),
            !skill_event ==> final(self).pending == old(self).pending && final(self).next_emit_ms
                == old(self).next_emit_ms,
    {
        if skill_event {
            self.pending = true;
            self.next_emit_ms = if now_ms <= u64::MAX - DEBOUNCE_WINDOW_MS {
                now_ms + DEBOUNCE_WINDOW_MS
            } else {
                u64::MAX
            };
        }
    }

    /// The quiet window ended: whether to announce an update now.
    pub fn on_deadline(&mut self) -> (emit: bool)
        ensures
            emit == old(self).pending,
            !final(self).pending,
            final(self).next_emit_ms == old(self).next_emit_ms,
    {
        let emit = self.pending;
        self.pending = false;
        emit
    }
}

} // verus!
