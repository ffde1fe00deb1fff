//! Static configuration: loop descriptors and their construction-time checks.
//!
//! The configuration layer that sits outside this library fixes a table of
//! event kinds (indices `0 .. n_kinds`) and one descriptor per loop.  Before
//! any thread starts, the runtime builder validates that every loop brings a
//! handler for each kind it subscribes to and that every active loop brings
//! a step function; a violation is reported synchronously as a
//! [`ConfigError`] and nothing is built.

use vstd::prelude::*;

verus! {

/// The two scheduling disciplines a loop can follow.
#[derive(Clone, Copy, PartialEq, Eq, Structural)]
pub enum LoopKind {
    /// Runs a repeating step function and polls its mailbox without blocking.
    Active,
    /// Sleeps until an event arrives, drains, and goes back to sleep.
    Reactive,
}

/// The static description of one loop, built once at configuration time.
pub struct LoopDescriptor {
    /// The loop's name, carried for diagnostics.
    pub name: String,
    /// Whether the loop is active or reactive.
    pub kind: LoopKind,
    /// The event kinds the loop may publish.
    pub publishes: Vec<usize>,
    /// The event kinds routed into the loop's mailbox.
    pub subscribes: Vec<usize>,
    /// The event kinds for which the loop's callbacks supply a handler.
    pub handled: Vec<usize>,
    /// Whether the loop's callbacks supply a step function.
    pub has_step: bool,
}

/// A configuration fault, reported before any thread starts.
pub enum ConfigError {
    /// Loop `loop_index` subscribes to `kind` but supplies no handler for it.
    MissingHandler { loop_index: usize, kind: usize },
    /// Active loop `loop_index` supplies no step function.
    MissingStep { loop_index: usize },
    /// Loop `loop_index` names `kind` outside the configured kind table.
    KindOutOfRange { loop_index: usize, kind: usize },
}

/// Whether one descriptor is acceptable against a kind table of `n_kinds`
/// entries: all named kinds in range, every subscription handled, and a step
/// function present when the loop is active.
pub open spec fn descriptor_valid(n_kinds: usize, d: LoopDescriptor) -> bool {
    &&& forall|i: int| 0 <= i < d.publishes@.len() ==> #[trigger] d.publishes@[i] < n_kinds
    &&& forall|i: int| 0 <= i < d.subscribes@.len() ==> #[trigger] d.subscribes@[i] < n_kinds
    &&& forall|i: int|
        0 <= i < d.subscribes@.len() ==> d.handled@.contains(#[trigger] d.subscribes@[i])
    &&& (d.kind is Active ==> d.has_step)
}

/// Whether a whole configuration is acceptable.
pub open spec fn config_valid(n_kinds: usize, ds: Seq<LoopDescriptor>) -> bool {
    forall|l: int| 0 <= l < ds.len() ==> descriptor_valid(n_kinds, #[trigger] ds[l])
}

/// Whether a reported error names a genuine fault of the configuration.
pub open spec fn error_is_genuine(n_kinds: usize, ds: Seq<LoopDescriptor>, e: ConfigError) -> bool {
    match e {
        ConfigError::MissingHandler { loop_index, kind } => {
            &&& loop_index < ds.len()
            &&& ds[loop_index as int].subscribes@.contains(kind)
            &&& !ds[loop_index as int].handled@.contains(kind)
        },
        ConfigError::MissingStep { loop_index } => {
            &&& loop_index < ds.len()
            &&& ds[loop_index as int].kind is Active
            &&& !ds[loop_index as int].has_step
        },
        ConfigError::KindOutOfRange { loop_index, kind } => {
            &&& loop_index < ds.len()
            &&& kind >= n_kinds
            &&& (ds[loop_index as int].publishes@.contains(kind)
                || ds[loop_index as int].subscribes@.contains(kind))
        },
    }
}

/// Whether `v` holds `k`; the membership test behind every subscription and
/// handler lookup.
pub fn kind_list_contains(v: &Vec<usize>, k: usize) -> (b: bool)
    ensures
        b == v@.contains(k),
{
    let mut i: usize = 0;
    while i < v.len()
        invariant
            i <= v@.len(),
            forall|j: int| 0 <= j < i ==> v@[j] != k,
        decreases v@.len() - i,
    {
        if v[i] == k {
            assert(v@[i as int] == k);
            return true;
        }
        i += 1;
    }
    false
}

/// Copies a kind list; the builder hands each loop's thread its own copy of
/// its subscription set.
pub fn copy_kind_list(v: &Vec<usize>) -> (r: Vec<usize>)
    ensures
        r@ == v@,
{
    let mut r: Vec<usize> = Vec::new();
    let mut i: usize = 0;
    while i < v.len()
        invariant
            i <= v@.len(),
            r@ == v@.take(i as int),
        decreases v@.len() - i,
    {
        r.push(v[i]);
        proof {
            assert(v@.take(i + 1) =~= v@.take(i as int).push(v@[i as int]));
        }
        i += 1;
    }
    proof {
        assert(v@.take(v@.len() as int) =~= v@);
    }
    r
}

/// Checks one descriptor, reporting the first fault found while scanning its
/// subscriptions, then its publications, then the step requirement.
fn check_descriptor(n_kinds: usize, loop_index: usize, d: &LoopDescriptor) -> (r: Result<
    (),
    ConfigError,
>)
    ensures
        r is Ok <==> descriptor_valid(n_kinds, *d),
        r matches Err(e) ==> match e {
            ConfigError::MissingHandler { loop_index: l, kind } => {
                l == loop_index && d.subscribes@.contains(kind) && !d.handled@.contains(kind)
            },
            ConfigError::MissingStep { loop_index: l } => {
                l == loop_index && d.kind is Active && !d.has_step
            },
            ConfigError::KindOutOfRange { loop_index: l, kind } => {
                l == loop_index && kind >= n_kinds && (d.publishes@.contains(kind)
                    || d.subscribes@.contains(kind))
            },
        },
{
    let mut i: usize = 0;
    while i < d.subscribes.len()
        invariant
            i <= d.subscribes@.len(),
            forall|j: int|
                0 <= j < i ==> #[trigger] d.subscribes@[j] < n_kinds && d.handled@.contains(
                    d.subscribes@[j],
                ),
        decreases d.subscribes@.len() - i,
    {
        let k = d.subscribes[i];
        if k >= n_kinds {
            assert(d.subscribes@.contains(k));
            return Err(ConfigError::KindOutOfRange { loop_index, kind: k });
        }
        if !kind_list_contains(&d.handled, k) {
            assert(d.subscribes@.contains(k));
            return Err(ConfigError::MissingHandler { loop_index, kind: k });
        }
        i += 1;
    }
    let mut i: usize = 0;
    while i < d.publishes.len()
        invariant
            i <= d.publishes@.len(),
            forall|j: int| 0 <= j < i ==> #[trigger] d.publishes@[j] < n_kinds,
        decreases d.publishes@.len() - i,
    {
        let k = d.publishes[i];
        if k >= n_kinds {
            assert(d.publishes@.contains(k));
            return Err(ConfigError::KindOutOfRange { loop_index, kind: k });
        }
        i += 1;
    }
    match d.kind {
        LoopKind::Active => {
            if !d.has_step {
                return Err(ConfigError::MissingStep { loop_index });
            }
        },
        LoopKind::Reactive => {},
    }
    Ok(())
}

/// Validates a whole configuration against a kind table of `n_kinds`
/// entries.  Succeeds exactly when every descriptor is acceptable; any error
/// returned names a genuine fault.
pub fn validate_config(n_kinds: usize, ds: &Vec<LoopDescriptor>) -> (r: Result<(), ConfigError>)
    ensures
        r is Ok <==> config_valid(n_kinds, ds@),
        r matches Err(e) ==> error_is_genuine(n_kinds, ds@, e),
{
    let mut l: usize = 0;
    while l < ds.len()
        invariant
            l <= ds@.len(),
            forall|j: int| 0 <= j < l ==> descriptor_valid(n_kinds, #[trigger] ds@[j]),
        decreases ds@.len() - l,
    {
        match check_descriptor(n_kinds, l, &ds[l]) {
            Ok(()) => {},
            Err(e) => {
                return Err(e);
            },
        }
        l += 1;
    }
    Ok(())
}

} // verus!
