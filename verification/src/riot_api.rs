use vstd::prelude::*;

verus! {

/// Which of the two upstream rate-limit budgets an outbound call is charged
/// to.
#[derive(Clone, Copy, PartialEq, Eq, Structural)]
pub enum Priority {
    /// The sweep loops' budget: most of the key's quota, and allowed to run
    /// saturated.
    Updater,
    /// The reserve kept for on-demand updates, which should resolve at once.
    UserAction,
}

} // verus!
