use vstd::prelude::*;

use crate::db_model::{LeagueAccount, Role, ServerAndUserPresence, User};
use crate::evaluate::{ctx_wf, spec_role_applies, EvaluationContext};
use crate::role_model::RoleConditionWithId;
use crate::strings::{
    is_digit, replace_all, spec_replace, str_eq, truncate_chars,
};

verus! {

/// A snowflake a role can actually be assigned under: non-empty and all
/// ASCII digits. Roles with any other snowflake are disabled and skipped.
pub open spec fn spec_numeric_snowflake(s: Seq<char>) -> bool {
    s.len() > 0 && forall|i: int| 0 <= i < s.len() ==> is_digit(#[trigger] s[i])
}

/// Whether the given string is a usable role snowflake.
pub fn is_numeric_snowflake(s: &str) -> (r: bool)
    ensures
        r == spec_numeric_snowflake(s@),
{
    let v: Vec<char> = crate::strings::chars_of(s);
    let n: usize = v.len();
    if n == 0 {
        return false;
    }
    let mut i: usize = 0;
    while i < n
        invariant
            n == v@.len(),
            v@ == s@,
            0 <= i <= n,
            forall|j: int| 0 <= j < i ==> is_digit(#[trigger] s@[j]),
        decreases n - i,
    {
        let c: char = v[i];
        if !('0' <= c && c <= '9') {
            return false;
        }
        i = i + 1;
    }
    true
}

/// Some element of the list reads as the given snowflake.
pub open spec fn has_snowflake(s: Seq<String>, q: Seq<char>) -> bool {
    exists|j: int| 0 <= j < s.len() && (#[trigger] s[j])@ == q
}

proof fn lemma_has_snowflake_grow(prev: Seq<String>, s: Seq<String>)
    requires
        prev.len() <= s.len(),
        forall|j: int| 0 <= j < prev.len() ==> #[trigger] s[j] == prev[j],
    ensures
        forall|q: Seq<char>| #[trigger] has_snowflake(prev, q) ==> has_snowflake(s, q),
{
    assert forall|q: Seq<char>| #[trigger] has_snowflake(prev, q) implies has_snowflake(s, q) by {
        let j = choose|j: int| 0 <= j < prev.len() && (#[trigger] prev[j])@ == q;
        assert(s[j]@ == q);
    }
}

/// Whether some element of the vector reads as the given string.
pub fn contains_str(v: &Vec<String>, q: &str) -> (r: bool)
    ensures
        r == has_snowflake(v@, q@),
{
    let n: usize = v.len();
    let mut i: usize = 0;
    while i < n
        invariant
            n == v@.len(),
            0 <= i <= n,
            forall|j: int| 0 <= j < i ==> (#[trigger] v@[j])@ != q@,
        decreases n - i,
    {
        if str_eq(v[i].as_str(), q) {
            assert(v@[i as int]@ == q@);
            return true;
        }
        i = i + 1;
    }
    assert(!has_snowflake(v@, q@));
    false
}

/// Whether the configured conditions let a role apply to the user: the
/// role's combinator over its conditions.
pub open spec fn spec_pair_applies(
    p: (Role, Vec<RoleConditionWithId>),
    ctx: EvaluationContext,
) -> bool {
    spec_role_applies(p.0.combinator, p.1@, ctx)
}

/// Some eligible role with this snowflake applies to the user.
pub open spec fn spec_should_have(
    rc: Seq<(Role, Vec<RoleConditionWithId>)>,
    ctx: EvaluationContext,
    q: Seq<char>,
) -> bool {
    exists|i: int|
        0 <= i < rc.len() && spec_numeric_snowflake((#[trigger] rc[i]).0.snowflake@)
            && rc[i].0.snowflake@ == q && spec_pair_applies(rc[i], ctx)
}

/// Some eligible role with this snowflake does not apply to the user.
pub open spec fn spec_should_not_have(
    rc: Seq<(Role, Vec<RoleConditionWithId>)>,
    ctx: EvaluationContext,
    q: Seq<char>,
) -> bool {
    exists|i: int|
        0 <= i < rc.len() && spec_numeric_snowflake((#[trigger] rc[i]).0.snowflake@)
            && rc[i].0.snowflake@ == q && !spec_pair_applies(rc[i], ctx)
}

/// The first configured role carrying the given snowflake.
pub open spec fn first_role_with_snowflake(
    rc: Seq<(Role, Vec<RoleConditionWithId>)>,
    q: Seq<char>,
) -> Option<Role>
    decreases rc.len(),
{
    if rc.len() == 0 {
        None
    } else if rc[0].0.snowflake@ == q {
        Some(rc[0].0)
    } else {
        first_role_with_snowflake(rc.skip(1), q)
    }
}

/// The index of the first configured role carrying the given snowflake.
fn find_role_index(rc: &Vec<(Role, Vec<RoleConditionWithId>)>, q: &str) -> (r: Option<usize>)
    ensures
        match r {
            Some(i) => i < rc@.len() && first_role_with_snowflake(rc@, q@) == Some(
                rc@[i as int].0,
            ),
            None => first_role_with_snowflake(rc@, q@) is None,
        },
{
    let n: usize = rc.len();
    let mut i: usize = 0;
    proof {
        assert(rc@.skip(0) =~= rc@);
    }
    while i < n
        invariant
            n == rc@.len(),
            0 <= i <= n,
            first_role_with_snowflake(rc@, q@) == first_role_with_snowflake(
                rc@.skip(i as int),
                q@,
            ),
        decreases n - i,
    {
        proof {
            assert(rc@.skip(i as int)[0] == rc@[i as int]);
            assert(rc@.skip(i as int).skip(1) =~= rc@.skip(i as int + 1));
        }
        if str_eq(rc[i].0.snowflake.as_str(), q) {
            return Some(i);
        }
        i = i + 1;
    }
    proof {
        assert(rc@.skip(n as int) =~= Seq::<(Role, Vec<RoleConditionWithId>)>::empty());
    }
    None
}

/// The first account marked as the user's primary one.
pub open spec fn spec_primary_account(accounts: Seq<LeagueAccount>) -> Option<LeagueAccount>
    decreases accounts.len(),
{
    if accounts.len() == 0 {
        None
    } else if accounts[0].primary {
        Some(accounts[0])
    } else {
        spec_primary_account(accounts.skip(1))
    }
}

/// The index of the first account marked primary.
fn primary_account_index(accounts: &Vec<LeagueAccount>) -> (r: Option<usize>)
    ensures
        match r {
            Some(i) => i < accounts@.len() && spec_primary_account(accounts@) == Some(
                accounts@[i as int],
            ),
            None => spec_primary_account(accounts@) is None,
        },
{
    let n: usize = accounts.len();
    let mut i: usize = 0;
    proof {
        assert(accounts@.skip(0) =~= accounts@);
    }
    while i < n
        invariant
            n == accounts@.len(),
            0 <= i <= n,
            spec_primary_account(accounts@) == spec_primary_account(accounts@.skip(i as int)),
        decreases n - i,
    {
        proof {
            assert(accounts@.skip(i as int)[0] == accounts@[i as int]);
            assert(accounts@.skip(i as int).skip(1) =~= accounts@.skip(i as int + 1));
        }
        if accounts[i].primary {
            return Some(i);
        }
        i = i + 1;
    }
    proof {
        assert(accounts@.skip(n as int) =~= Seq::<LeagueAccount>::empty());
    }
    None
}

/// The nickname a server's pattern prescribes for a primary account: the
/// pattern with its region and username placeholders substituted, cut to 32
/// characters.
pub open spec fn spec_nickname_target(
    pattern: Seq<char>,
    region: Seq<char>,
    username: Seq<char>,
) -> Seq<char> {
    let replaced = spec_replace(
        spec_replace(pattern, "{region}"@, region),
        "{username}"@,
        username,
    );
    if replaced.len() <= 32 {
        replaced
    } else {
        replaced.take(32)
    }
}

/// Computes the nickname for a primary account on a server.
pub fn nickname_target(pattern: &str, region: &str, username: &str) -> (r: String)
    ensures
        r@ == spec_nickname_target(pattern@, region@, username@),
{
    proof {
        reveal_strlit("{region}");
        reveal_strlit("{username}");
    }
    let step1: String = replace_all(pattern, "{region}", region);
    let step2: String = replace_all(step1.as_str(), "{username}", username);
    truncate_chars(step2.as_str(), 32)
}

/// Whether the updater may touch a user at all.
pub fn should_update_user(user: &User) -> (r: bool)
    ensures
        r == !user.ignore,
{
    !user.ignore
}

/// What to do when the chat platform rejects a role assignment.
pub enum AddFailureAction {
    /// The platform no longer knows the role: clear its stored snowflake so
    /// that no further assignment is attempted until an operator fixes it.
    ClearSnowflake,
    /// Any other failure: log it and carry on.
    Warn,
}

/// The platform's error code for an unknown role.
pub const UNKNOWN_ROLE_CODE: u64 = 10011;

/// Decides the remediation for a failed role assignment from the error code
/// the chat platform returned.
pub fn add_failure_action(error_code: u64) -> (r: AddFailureAction)
    ensures
        (r matches AddFailureAction::ClearSnowflake) <==> error_code == UNKNOWN_ROLE_CODE,
{
    if error_code == UNKNOWN_ROLE_CODE {
        AddFailureAction::ClearSnowflake
    } else {
        AddFailureAction::Warn
    }
}

/// Records an assigned role in the mirrored role list: appends the decimal
/// form of the role id only when it is not already present, so that the
/// mirror stays consistent without waiting for the next gateway event.
pub fn insert_discord_member_role(roles: &Vec<String>, role_id: u64) -> (r: Vec<String>)
    ensures
        has_snowflake(roles@, crate::strings::spec_dec(role_id as int)) ==> r@ == roles@,
        !has_snowflake(roles@, crate::strings::spec_dec(role_id as int)) ==> r@.len() == roles@.len()
            + 1 && r@.drop_last() == roles@ && r@.last()@ == crate::strings::spec_dec(
            role_id as int,
        ),
{
    let name: String = crate::strings::u64_to_dec(role_id);
    let n: usize = roles.len();
    let mut out: Vec<String> = Vec::new();
    let mut i: usize = 0;
    while i < n
        invariant
            n == roles@.len(),
            0 <= i <= n,
            out@ =~= roles@.take(i as int),
        decreases n - i,
    {
        let s: String = roles[i].clone();
        out.push(s);
        proof {
            assert(out@ =~= roles@.take(i as int + 1));
        }
        i = i + 1;
    }
    proof {
        assert(out@ =~= roles@);
    }
    if contains_str(&out, name.as_str()) {
        out
    } else {
        out.push(name);
        proof {
            assert(out@.drop_last() =~= roles@);
        }
        out
    }
}

/// One role the user is owed together with what acting on it needs: the
/// configured role's row id (for remediation) and whether a promotion is
/// announced.
pub struct RoleAdd {
    pub snowflake: String,
    pub role_id: i32,
    pub announce: bool,
}

/// Some queued addition carries the given snowflake.
pub open spec fn has_add(s: Seq<RoleAdd>, q: Seq<char>) -> bool {
    exists|j: int| 0 <= j < s.len() && (#[trigger] s[j]).snowflake@ == q
}

/// Whether some queued addition carries the given snowflake.
fn contains_add(v: &Vec<RoleAdd>, q: &str) -> (r: bool)
    ensures
        r == has_add(v@, q@),
{
    let n: usize = v.len();
    let mut i: usize = 0;
    while i < n
        invariant
            n == v@.len(),
            0 <= i <= n,
            forall|j: int| 0 <= j < i ==> (#[trigger] v@[j]).snowflake@ != q@,
        decreases n - i,
    {
        if str_eq(v[i].snowflake.as_str(), q) {
            assert(v@[i as int].snowflake@ == q@);
            return true;
        }
        i = i + 1;
    }
    assert(!has_add(v@, q@));
    false
}

proof fn lemma_first_role_none(rc: Seq<(Role, Vec<RoleConditionWithId>)>, q: Seq<char>)
    requires
        first_role_with_snowflake(rc, q) is None,
    ensures
        forall|i: int| 0 <= i < rc.len() ==> (#[trigger] rc[i]).0.snowflake@ != q,
    decreases rc.len(),
{
    if rc.len() > 0 {
        lemma_first_role_none(rc.skip(1), q);
        assert forall|i: int| 0 <= i < rc.len() implies (#[trigger] rc[i]).0.snowflake@ != q by {
            if i > 0 {
                assert(rc.skip(1)[i - 1] == rc[i]);
            }
        }
    }
}

/// The chat-side writes one reconciliation of a user on one server makes:
/// the role memberships to remove, the roles to assign, and the nickname to
/// write (`Some(None)` clears it).
pub struct ReconcilePlan {
    pub removes: Vec<String>,
    pub adds: Vec<RoleAdd>,
    pub nickname_update: Option<Option<String>>,
}

/// Computes one reconciliation: evaluates every usable role, removes held
/// roles that no evaluation grants, assigns granted roles that are not yet
/// held, and lines the nickname up with the server's pattern.
#[verifier::rlimit(100)]
pub fn reconcile_plan(
    rc: &Vec<(Role, Vec<RoleConditionWithId>)>,
    ctx: &EvaluationContext,
    membership: &ServerAndUserPresence,
) -> (plan: ReconcilePlan)
    requires
        ctx_wf(*ctx),
    ensures
        forall|t: int|
            0 <= t < plan.removes@.len() ==> spec_should_not_have(
                rc@,
                *ctx,
                (#[trigger] plan.removes@[t])@,
            ) && !spec_should_have(rc@, *ctx, plan.removes@[t]@) && has_snowflake(
                membership.roles@,
                plan.removes@[t]@,
            ),
        forall|q: Seq<char>|
            #[trigger] spec_should_not_have(rc@, *ctx, q) && !spec_should_have(rc@, *ctx, q)
                && has_snowflake(membership.roles@, q) ==> has_snowflake(plan.removes@, q),
        forall|x: int, y: int|
            0 <= x < y < plan.removes@.len() ==> (#[trigger] plan.removes@[x])@ != (
            #[trigger] plan.removes@[y])@,
        forall|t: int|
            0 <= t < plan.adds@.len() ==> spec_should_have(
                rc@,
                *ctx,
                (#[trigger] plan.adds@[t]).snowflake@,
            ) && !has_snowflake(membership.roles@, plan.adds@[t].snowflake@)
                && (first_role_with_snowflake(rc@, plan.adds@[t].snowflake@) matches Some(r)
                && plan.adds@[t].role_id == r.id && plan.adds@[t].announce == r.announce),
        forall|q: Seq<char>|
            #[trigger] spec_should_have(rc@, *ctx, q) && !has_snowflake(membership.roles@, q)
                ==> has_add(plan.adds@, q),
        forall|x: int, y: int|
            0 <= x < y < plan.adds@.len() ==> (#[trigger] plan.adds@[x]).snowflake@ != (
            #[trigger] plan.adds@[y]).snowflake@,
        membership.server.nickname_pattern@.len() == 0 ==> plan.nickname_update is None,
        membership.server.nickname_pattern@.len() > 0 ==> match spec_primary_account(
            ctx.accounts@,
        ) {
            Some(a) => {
                let target = spec_nickname_target(
                    membership.server.nickname_pattern@,
                    a.region@,
                    a.username@,
                );
                if (membership.nickname matches Some(n) && n@ == target) {
                    plan.nickname_update is None
                } else {
                    plan.nickname_update matches Some(Some(t)) && t@ == target
                }
            },
            None => {
                if membership.nickname is Some {
                    plan.nickname_update == Some(None::<String>)
                } else {
                    plan.nickname_update is None
                }
            },
        },
{
    let n: usize = rc.len();
    // evaluate every usable role once
    let mut sh: Vec<String> = Vec::new();
    let mut sn: Vec<String> = Vec::new();
    let ghost mut sh_src: Seq<int> = Seq::empty();
    let ghost mut sn_src: Seq<int> = Seq::empty();
    let mut i: usize = 0;
    while i < n
        invariant
            ctx_wf(*ctx),
            n == rc@.len(),
            0 <= i <= n,
            sh_src.len() == sh@.len(),
            sn_src.len() == sn@.len(),
            forall|j: int| 0 <= j < sh@.len() ==> 0 <= #[trigger] sh_src[j] < i,
            forall|j: int|
                0 <= j < sh@.len() ==> (#[trigger] sh@[j])@ == rc@[sh_src[j]].0.snowflake@,
            forall|j: int|
                0 <= j < sh@.len() ==> spec_numeric_snowflake(
                    rc@[#[trigger] sh_src[j]].0.snowflake@,
                ),
            forall|j: int|
                0 <= j < sh@.len() ==> spec_pair_applies(rc@[#[trigger] sh_src[j]], *ctx),
            forall|j: int| 0 <= j < sn@.len() ==> 0 <= #[trigger] sn_src[j] < i,
            forall|j: int|
                0 <= j < sn@.len() ==> (#[trigger] sn@[j])@ == rc@[sn_src[j]].0.snowflake@,
            forall|j: int|
                0 <= j < sn@.len() ==> spec_numeric_snowflake(
                    rc@[#[trigger] sn_src[j]].0.snowflake@,
                ),
            forall|j: int|
                0 <= j < sn@.len() ==> !spec_pair_applies(rc@[#[trigger] sn_src[j]], *ctx),
            forall|k: int|
                0 <= k < i && spec_numeric_snowflake((#[trigger] rc@[k]).0.snowflake@)
                    && spec_pair_applies(rc@[k], *ctx) ==> has_snowflake(
                    sh@,
                    rc@[k].0.snowflake@,
                ),
            forall|k: int|
                0 <= k < i && spec_numeric_snowflake((#[trigger] rc@[k]).0.snowflake@)
                    && !spec_pair_applies(rc@[k], *ctx) ==> has_snowflake(
                    sn@,
                    rc@[k].0.snowflake@,
                ),
        decreases n - i,
    {
        let eligible: bool = is_numeric_snowflake(rc[i].0.snowflake.as_str());
        if eligible {
            let applies: bool = rc[i].0.evaluate(&rc[i].1, ctx);
            if applies {
                let ghost prev = sh@;
                let ghost prev_src = sh_src;
                sh.push(rc[i].0.snowflake.clone());
                proof {
                    sh_src = sh_src.push(i as int);
                    assert(sh@.drop_last() =~= prev);
                    assert(forall|j: int| 0 <= j < prev.len() ==> #[trigger] sh@[j] == prev[j]);
                    assert(forall|j: int| 0 <= j < prev.len() ==> #[trigger] sh_src[j] == prev_src[j]);
                    assert(sh@.last()@ == rc@[i as int].0.snowflake@);
                    assert(sh_src.last() == i as int);
                    assert(spec_numeric_snowflake(rc@[i as int].0.snowflake@));
                    assert(spec_pair_applies(rc@[i as int], *ctx));
                    lemma_has_snowflake_grow(prev, sh@);
                    assert(has_snowflake(sh@, rc@[i as int].0.snowflake@));
                    assert forall|j: int| 0 <= j < sh@.len() implies (#[trigger] sh@[j])@
                        == rc@[sh_src[j]].0.snowflake@ && spec_numeric_snowflake(
                        rc@[sh_src[j]].0.snowflake@,
                    ) && spec_pair_applies(rc@[sh_src[j]], *ctx) by {
                        if j < sh@.len() - 1 {
                            assert(sh@[j] == prev[j]);
                            assert(sh_src[j] == prev_src[j]);
                        } else {
                            assert(sh_src[j] == i as int);
                        }
                    }
                }
            } else {
                let ghost prev = sn@;
                let ghost prev_src = sn_src;
                sn.push(rc[i].0.snowflake.clone());
                proof {
                    sn_src = sn_src.push(i as int);
                    assert(sn@.drop_last() =~= prev);
                    assert(forall|j: int| 0 <= j < prev.len() ==> #[trigger] sn@[j] == prev[j]);
                    assert(forall|j: int| 0 <= j < prev.len() ==> #[trigger] sn_src[j] == prev_src[j]);
                    assert(sn@.last()@ == rc@[i as int].0.snowflake@);
                    assert(sn_src.last() == i as int);
                    assert(spec_numeric_snowflake(rc@[i as int].0.snowflake@));
                    assert(!spec_pair_applies(rc@[i as int], *ctx));
                    lemma_has_snowflake_grow(prev, sn@);
                    assert(has_snowflake(sn@, rc@[i as int].0.snowflake@));
                }
            }
        }
        i = i + 1;
    }
    proof {
        // the two lists carry exactly the snowflakes the evaluation decided
        assert forall|q: Seq<char>| #[trigger]
            has_snowflake(sh@, q) implies spec_should_have(rc@, *ctx, q) by {
            let j = choose|j: int| 0 <= j < sh@.len() && (#[trigger] sh@[j])@ == q;
            assert(rc@[sh_src[j]].0.snowflake@ == q && spec_numeric_snowflake(
                rc@[sh_src[j]].0.snowflake@,
            ) && spec_pair_applies(rc@[sh_src[j]], *ctx));
        }
        assert forall|q: Seq<char>| #[trigger]
            spec_should_have(rc@, *ctx, q) implies has_snowflake(sh@, q) by {
            let k = choose|k: int|
                0 <= k < rc@.len() && spec_numeric_snowflake((#[trigger] rc@[k]).0.snowflake@)
                    && rc@[k].0.snowflake@ == q && spec_pair_applies(rc@[k], *ctx);
        }
        assert forall|q: Seq<char>| #[trigger]
            has_snowflake(sn@, q) implies spec_should_not_have(rc@, *ctx, q) by {
            let j = choose|j: int| 0 <= j < sn@.len() && (#[trigger] sn@[j])@ == q;
            assert(rc@[sn_src[j]].0.snowflake@ == q && spec_numeric_snowflake(
                rc@[sn_src[j]].0.snowflake@,
            ) && !spec_pair_applies(rc@[sn_src[j]], *ctx));
        }
        assert forall|q: Seq<char>| #[trigger]
            spec_should_not_have(rc@, *ctx, q) implies has_snowflake(sn@, q) by {
            let k = choose|k: int|
                0 <= k < rc@.len() && spec_numeric_snowflake((#[trigger] rc@[k]).0.snowflake@)
                    && rc@[k].0.snowflake@ == q && !spec_pair_applies(rc@[k], *ctx);
        }
    }
    // roles held but no longer granted anywhere: remove them, each once
    let mut removes: Vec<String> = Vec::new();
    let m1: usize = sn.len();
    let mut j1: usize = 0;
    while j1 < m1
        invariant
            m1 == sn@.len(),
            0 <= j1 <= m1,
            forall|q: Seq<char>| #[trigger] has_snowflake(sh@, q) <==> spec_should_have(rc@, *ctx, q),
            forall|q: Seq<char>| #[trigger]
                has_snowflake(sn@, q) <==> spec_should_not_have(rc@, *ctx, q),
            forall|t: int|
                0 <= t < removes@.len() ==> spec_should_not_have(
                    rc@,
                    *ctx,
                    (#[trigger] removes@[t])@,
                ) && !spec_should_have(rc@, *ctx, removes@[t]@) && has_snowflake(
                    membership.roles@,
                    removes@[t]@,
                ),
            forall|k: int|
                0 <= k < j1 && !has_snowflake(sh@, (#[trigger] sn@[k])@) && has_snowflake(
                    membership.roles@,
                    sn@[k]@,
                ) ==> has_snowflake(removes@, sn@[k]@),
            forall|x: int, y: int|
                0 <= x < y < removes@.len() ==> (#[trigger] removes@[x])@ != (
                #[trigger] removes@[y])@,
        decreases m1 - j1,
    {
        let in_sh: bool = contains_str(&sh, sn[j1].as_str());
        let held: bool = contains_str(&membership.roles, sn[j1].as_str());
        let queued: bool = contains_str(&removes, sn[j1].as_str());
        if !in_sh && held && !queued {
            let ghost prev = removes@;
            removes.push(sn[j1].clone());
            proof {
                assert(removes@.drop_last() =~= prev);
                assert(forall|j: int| 0 <= j < prev.len() ==> #[trigger] removes@[j] == prev[j]);
                assert(removes@.last()@ == sn@[j1 as int]@);
                lemma_has_snowflake_grow(prev, removes@);
                assert(has_snowflake(removes@, sn@[j1 as int]@));
                assert(has_snowflake(sn@, sn@[j1 as int]@));
                assert forall|x: int, y: int|
                    0 <= x < y < removes@.len() implies (#[trigger] removes@[x])@ != (
                #[trigger] removes@[y])@ by {
                    if y == removes@.len() - 1 {
                        assert(removes@[x] == prev[x]);
                        assert(prev[x]@ != sn@[j1 as int]@) by {
                            if prev[x]@ == sn@[j1 as int]@ {
                                assert(has_snowflake(prev, sn@[j1 as int]@));
                            }
                        }
                    } else {
                        assert(removes@[x] == prev[x] && removes@[y] == prev[y]);
                    }
                }
            }
        }
        j1 = j1 + 1;
    }
    // granted roles not yet held: assign them, each once
    let mut adds: Vec<RoleAdd> = Vec::new();
    let m2: usize = sh.len();
    let mut j2: usize = 0;
    while j2 < m2
        invariant
            m2 == sh@.len(),
            0 <= j2 <= m2,
            forall|q: Seq<char>| #[trigger] has_snowflake(sh@, q) <==> spec_should_have(rc@, *ctx, q),
            forall|t: int|
                0 <= t < adds@.len() ==> spec_should_have(
                    rc@,
                    *ctx,
                    (#[trigger] adds@[t]).snowflake@,
                ) && !has_snowflake(membership.roles@, adds@[t].snowflake@) && (
                first_role_with_snowflake(rc@, adds@[t].snowflake@) matches Some(r)
                    && adds@[t].role_id == r.id && adds@[t].announce == r.announce),
            forall|k: int|
                0 <= k < j2 && !has_snowflake(membership.roles@, (#[trigger] sh@[k])@) ==> has_add(
                    adds@,
                    sh@[k]@,
                ),
            forall|x: int, y: int|
                0 <= x < y < adds@.len() ==> (#[trigger] adds@[x]).snowflake@ != (
                #[trigger] adds@[y]).snowflake@,
        decreases m2 - j2,
    {
        let held: bool = contains_str(&membership.roles, sh[j2].as_str());
        let queued: bool = contains_add(&adds, sh[j2].as_str());
        if !held && !queued {
            match find_role_index(rc, sh[j2].as_str()) {
                Some(ri) => {
                    let ghost prev = adds@;
                    let add = RoleAdd {
                        snowflake: sh[j2].clone(),
                        role_id: rc[ri].0.id,
                        announce: rc[ri].0.announce,
                    };
                    adds.push(add);
                    proof {
                        assert(adds@.drop_last() =~= prev);
                        assert(forall|j: int| 0 <= j < prev.len() ==> #[trigger] adds@[j] == prev[j]);
                        assert(adds@.last().snowflake@ == sh@[j2 as int]@);
                        assert(has_snowflake(sh@, sh@[j2 as int]@));
                        assert forall|q: Seq<char>| #[trigger]
                            has_add(prev, q) implies has_add(adds@, q) by {
                            let j = choose|j: int|
                                0 <= j < prev.len() && (#[trigger] prev[j]).snowflake@ == q;
                            assert(adds@[j].snowflake@ == q);
                        }
                        assert(has_add(adds@, sh@[j2 as int]@));
                        assert forall|x: int, y: int|
                            0 <= x < y < adds@.len() implies (#[trigger] adds@[x]).snowflake@ != (
                        #[trigger] adds@[y]).snowflake@ by {
                            if y == adds@.len() - 1 {
                                assert(adds@[x] == prev[x]);
                                assert(prev[x].snowflake@ != sh@[j2 as int]@) by {
                                    if prev[x].snowflake@ == sh@[j2 as int]@ {
                                        assert(has_add(prev, sh@[j2 as int]@));
                                    }
                                }
                            } else {
                                assert(adds@[x] == prev[x] && adds@[y] == prev[y]);
                            }
                        }
                    }
                },
                None => {
                    proof {
                        lemma_first_role_none(rc@, sh@[j2 as int]@);
                        assert(has_snowflake(sh@, sh@[j2 as int]@));
                        assert(spec_should_have(rc@, *ctx, sh@[j2 as int]@));
                        let k = choose|k: int|
                            0 <= k < rc@.len() && spec_numeric_snowflake(
                                (#[trigger] rc@[k]).0.snowflake@,
                            ) && rc@[k].0.snowflake@ == sh@[j2 as int]@ && spec_pair_applies(
                                rc@[k],
                                *ctx,
                            );
                        assert(false);
                    }
                },
            }
        }
        j2 = j2 + 1;
    }
    // line the nickname up with the server's pattern
    let nickname_update: Option<Option<String>> = if membership.server.nickname_pattern.as_str().is_empty() {
        None
    } else {
        match primary_account_index(&ctx.accounts) {
            Some(ai) => {
                let target: String = nickname_target(
                    membership.server.nickname_pattern.as_str(),
                    ctx.accounts[ai].region.as_str(),
                    ctx.accounts[ai].username.as_str(),
                );
                let same: bool = match &membership.nickname {
                    Some(nick) => str_eq(nick.as_str(), target.as_str()),
                    None => false,
                };
                if same {
                    None
                } else {
                    Some(Some(target))
                }
            },
            None => {
                match &membership.nickname {
                    Some(_) => Some(None),
                    None => None,
                }
            },
        }
    };
    proof {
        assert forall|q: Seq<char>|
            #[trigger] spec_should_not_have(rc@, *ctx, q) && !spec_should_have(rc@, *ctx, q)
                && has_snowflake(membership.roles@, q) implies has_snowflake(removes@, q) by {
            assert(has_snowflake(sn@, q));
            let k = choose|k: int| 0 <= k < sn@.len() && (#[trigger] sn@[k])@ == q;
        }
        assert forall|q: Seq<char>|
            #[trigger] spec_should_have(rc@, *ctx, q) && !has_snowflake(membership.roles@, q)
                implies has_add(adds@, q) by {
            assert(has_snowflake(sh@, q));
            let k = choose|k: int| 0 <= k < sh@.len() && (#[trigger] sh@[k])@ == q;
        }
    }
    ReconcilePlan { removes, adds, nickname_update }
}

/// Reconciliation is idempotent: once the first plan's role changes are
/// applied, the role set grants everything it should and holds nothing an
/// evaluation refuses, so an immediate second reconciliation has nothing to
/// remove and nothing to add. (The nickname behaves the same way: the first
/// call writes exactly the pattern's target, and the second call finds the
/// nickname equal to the target and makes no write.)
pub proof fn lemma_reconcile_idempotent(
    rc: Seq<(Role, Vec<RoleConditionWithId>)>,
    ctx: EvaluationContext,
    before_roles: Seq<String>,
    after_roles: Seq<String>,
)
    requires
        forall|p: Seq<char>|
            #[trigger] has_snowflake(after_roles, p) <==> (spec_should_have(rc, ctx, p) || (
            has_snowflake(before_roles, p) && !(spec_should_not_have(rc, ctx, p)
                && !spec_should_have(rc, ctx, p)))),
    ensures
        forall|q: Seq<char>|
            !(#[trigger] spec_should_not_have(rc, ctx, q) && !spec_should_have(rc, ctx, q)
                && has_snowflake(after_roles, q)),
        forall|q: Seq<char>| #[trigger] spec_should_have(rc, ctx, q) ==> has_snowflake(
            after_roles,
            q,
        ),
{
}

/// Recording the same role twice leaves the mirrored role list as one
/// recording does: the second application changes nothing.
pub proof fn lemma_insert_role_idempotent(
    roles: Seq<String>,
    once: Seq<String>,
    twice: Seq<String>,
    d: Seq<char>,
)
    requires
        has_snowflake(roles, d) ==> once == roles,
        !has_snowflake(roles, d) ==> once.len() == roles.len() + 1 && once.drop_last() == roles
            && once.last()@ == d,
        has_snowflake(once, d) ==> twice == once,
        !has_snowflake(once, d) ==> twice.len() == once.len() + 1 && twice.drop_last() == once
            && twice.last()@ == d,
    ensures
        twice == once,
{
    if has_snowflake(roles, d) {
        assert(has_snowflake(once, d));
    } else {
        assert(once[once.len() - 1]@ == d);
        assert(has_snowflake(once, d));
    }
}

} // verus!
