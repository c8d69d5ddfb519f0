//! Which outside programs complete, and how long they may take.

use vstd::prelude::*;

use crate::budget::Timeout;

verus! {

/// An outside program that completes.
#[derive(Debug, Clone, Copy, PartialEq, Eq, Structural)]
pub enum ExternalKind {
    Carapace,
    Zsh,
}

/// A program that is switched on, and where it was found.
#[derive(Debug, Clone, PartialEq, Eq)]
pub struct ResolvedExternal {
    pub kind: ExternalKind,
    pub binary: Option<String>,
}

/// The settings of completion by outside programs.
#[derive(Debug, Clone, PartialEq, Eq)]
pub struct ExternalCompletionSettings {
    /// How long a program may take.
    pub timeout: Timeout,
    /// The programs that are switched on, in the order in which they are asked.
    pub enabled: Vec<ResolvedExternal>,
    /// Whether one completion shell is kept running.
    pub zsh_daemon_enabled: bool,
}

/// Where the first program of this kind was found, if it was.
pub open spec fn binary_of(enabled: Seq<ResolvedExternal>, kind: ExternalKind) -> Option<Seq<char>>
    decreases enabled.len(),
{
    if enabled.len() == 0 {
        None
    } else if enabled[0].kind == kind {
        match enabled[0].binary {
            Some(path) => Some(path@),
            None => None,
        }
    } else {
        binary_of(enabled.skip(1), kind)
    }
}

/// The time a program gets: the configured time, but no less than the floor.
pub open spec fn floored(timeout: Timeout, floor: Option<Timeout>) -> int {
    match floor {
        Some(least) => if timeout.nanos < least.nanos {
            least.nanos as int
        } else {
            timeout.nanos as int
        },
        None => timeout.nanos as int,
    }
}

impl ExternalCompletionSettings {
    /// Settings with these programs switched on and the completion shell kept
    /// running.
    pub fn new(timeout: Timeout, enabled: Vec<ResolvedExternal>) -> (r: Self)
        ensures
            r.timeout == timeout,
            r.enabled == enabled,
            r.zsh_daemon_enabled,
    {
        ExternalCompletionSettings { timeout, enabled, zsh_daemon_enabled: true }
    }

    /// Whether programs of this kind may be asked.
    pub open spec fn admits(&self, kind: ExternalKind) -> bool {
        binary_of(self.enabled@, kind).is_some()
    }

    /// Where the program of this kind was found.
    pub fn binary_path(&self, kind: ExternalKind) -> (r: Option<String>)
        ensures
            crate::text::optional_text(r) == binary_of(self.enabled@, kind),
    {
        let mut i: usize = 0;
        assert(self.enabled@.skip(0) =~= self.enabled@);
        while i < self.enabled.len()
            invariant
                i <= self.enabled@.len(),
                binary_of(self.enabled@.skip(i as int), kind) == binary_of(self.enabled@, kind),
            decreases self.enabled@.len() - i,
        {
            assert(self.enabled@.skip(i as int).skip(1) =~= self.enabled@.skip(i + 1));
            if self.enabled[i].kind == kind {
                return match &self.enabled[i].binary {
                    Some(path) => Some(path.clone()),
                    None => None,
                };
            }
            i += 1;
        }
        None
    }

    /// Where the program of this kind was found and how long it may take, or
    /// `None` where it may not be asked.
    pub fn gate(&self, kind: ExternalKind, floor: Option<Timeout>) -> (r: Option<(String, Timeout)>)
        ensures
            r.is_some() <==> self.admits(kind),
            r matches Some((path, timeout)) ==> Some(path@) == binary_of(self.enabled@, kind)
                && timeout.nanos == floored(self.timeout, floor),
    {
        match self.binary_path(kind) {
            Some(path) => {
                let timeout: Timeout = match floor {
                    Some(least) => self.timeout.longer(least),
                    None => self.timeout,
                };
                Some((path, timeout))
            },
            None => None,
        }
    }

    /// Whether a completion shell is to be kept running.
    pub fn should_run_zsh_daemon(&self) -> (b: bool)
        ensures
            b == (self.zsh_daemon_enabled && self.admits(ExternalKind::Zsh)),
    {
        self.zsh_daemon_enabled && self.binary_path(ExternalKind::Zsh).is_some()
    }
}

/// The first program of a kind that is switched on decides: where it was found
/// the program may be asked, and where it was not found, none of that kind may,
/// whatever stands behind it.
pub proof fn law_first_program_of_a_kind_decides(
    settings: ExternalCompletionSettings,
    kind: ExternalKind,
    k: int,
)
    requires
        0 <= k < settings.enabled@.len(),
        settings.enabled@[k].kind == kind,
        forall|j: int| 0 <= j < k ==> (#[trigger] settings.enabled@[j]).kind != kind,
    ensures
        binary_of(settings.enabled@, kind) == match settings.enabled@[k].binary {
            Some(path) => Some(path@),
            None => None,
        },
        settings.admits(kind) <==> settings.enabled@[k].binary.is_some(),
{
    lemma_first_of_a_kind(settings.enabled@, kind, k);
}

proof fn lemma_first_of_a_kind(enabled: Seq<ResolvedExternal>, kind: ExternalKind, k: int)
    requires
        0 <= k < enabled.len(),
        enabled[k].kind == kind,
        forall|j: int| 0 <= j < k ==> (#[trigger] enabled[j]).kind != kind,
    ensures
        binary_of(enabled, kind) == match enabled[k].binary {
            Some(path) => Some(path@),
            None => None,
        },
    decreases enabled.len(),
{
    if k > 0 {
        assert(enabled[0].kind != kind);
        let rest = enabled.skip(1);
        assert forall|j: int| 0 <= j < k - 1 implies (#[trigger] rest[j]).kind != kind by {
            assert(rest[j] == enabled[j + 1]);
        }
        assert(rest[k - 1] == enabled[k]);
        lemma_first_of_a_kind(rest, kind, k - 1);
    }
}

/// A program of a kind that is not switched on may not be asked.
pub proof fn law_program_that_is_off_is_not_asked(
    settings: ExternalCompletionSettings,
    kind: ExternalKind,
)
    requires
        forall|j: int|
            0 <= j < settings.enabled@.len() ==> (#[trigger] settings.enabled@[j]).kind != kind,
    ensures
        !settings.admits(kind),
{
    lemma_none_of_a_kind(settings.enabled@, kind);
}

proof fn lemma_none_of_a_kind(enabled: Seq<ResolvedExternal>, kind: ExternalKind)
    requires
        forall|j: int| 0 <= j < enabled.len() ==> (#[trigger] enabled[j]).kind != kind,
    ensures
        binary_of(enabled, kind).is_none(),
    decreases enabled.len(),
{
    if enabled.len() > 0 {
        assert(enabled[0].kind != kind);
        assert forall|j: int| 0 <= j < enabled.skip(1).len() implies (#[trigger] enabled.skip(
            1,
        )[j]).kind != kind by {
            assert(enabled.skip(1)[j] == enabled[j + 1]);
        }
        lemma_none_of_a_kind(enabled.skip(1), kind);
    }
}

/// A program gets the configured time, or the floor where that is more, and
/// without a floor always the configured time.
pub proof fn law_time_is_the_greater_of_two(timeout: Timeout, floor: Timeout)
    ensures
        floored(timeout, Some(floor)) >= timeout.nanos,
        floored(timeout, Some(floor)) >= floor.nanos,
        floored(timeout, Some(floor)) == timeout.nanos || floored(timeout, Some(floor))
            == floor.nanos,
        floored(timeout, None) == timeout.nanos,
{
}

} // verus!
