//! Channel users: a nickname with an access level, written on the wire as
//! one or more leading sigils (`~` owner, `&` admin, `@` oper, `%` half-op,
//! `+` voice). Two users are the same user exactly when their bare
//! nicknames match, whatever their sigils say.

use vstd::prelude::*;
use crate::util::str_eq;

verus! {

/// Access levels a user can hold in a channel.
#[derive(Debug, Clone, Copy, PartialEq, Eq, Structural)]
pub enum AccessLevel {
    Owner,
    Admin,
    Oper,
    HalfOp,
    Voice,
    Member,
}

impl AccessLevel {
    /// Numeric rank; higher means more privileged.
    pub open spec fn rank(self) -> int {
        match self {
            AccessLevel::Owner => 5,
            AccessLevel::Admin => 4,
            AccessLevel::Oper => 3,
            AccessLevel::HalfOp => 2,
            AccessLevel::Voice => 1,
            AccessLevel::Member => 0,
        }
    }
}

/// The level one step below `l`; a member stays a member.
pub open spec fn level_below(l: AccessLevel) -> AccessLevel {
    match l {
        AccessLevel::Owner => AccessLevel::Admin,
        AccessLevel::Admin => AccessLevel::Oper,
        AccessLevel::Oper => AccessLevel::HalfOp,
        AccessLevel::HalfOp => AccessLevel::Voice,
        AccessLevel::Voice => AccessLevel::Member,
        AccessLevel::Member => AccessLevel::Member,
    }
}

/// The access level a display sigil stands for, if the character is one.
pub open spec fn sigil_level(c: char) -> Option<AccessLevel> {
    if c == '~' {
        Some(AccessLevel::Owner)
    } else if c == '&' {
        Some(AccessLevel::Admin)
    } else if c == '@' {
        Some(AccessLevel::Oper)
    } else if c == '%' {
        Some(AccessLevel::HalfOp)
    } else if c == '+' {
        Some(AccessLevel::Voice)
    } else {
        None
    }
}

/// The access level a channel-mode letter grants (`+o`, `+v`, ...).
pub open spec fn mode_level(c: char) -> Option<AccessLevel> {
    if c == 'q' {
        Some(AccessLevel::Owner)
    } else if c == 'a' {
        Some(AccessLevel::Admin)
    } else if c == 'o' {
        Some(AccessLevel::Oper)
    } else if c == 'h' {
        Some(AccessLevel::HalfOp)
    } else if c == 'v' {
        Some(AccessLevel::Voice)
    } else {
        None
    }
}

/// The more privileged of two levels; ties keep the first.
pub open spec fn max_level(a: AccessLevel, b: AccessLevel) -> AccessLevel {
    if a.rank() >= b.rank() {
        a
    } else {
        b
    }
}

/// The bare nickname: the name with every leading sigil removed.
pub open spec fn strip_sigils(s: Seq<char>) -> Seq<char>
    decreases s.len(),
{
    if s.len() > 0 && sigil_level(s[0]) is Some {
        strip_sigils(s.skip(1))
    } else {
        s
    }
}

/// The highest level among the leading sigils of a displayed name.
pub open spec fn highest_from(s: Seq<char>) -> AccessLevel
    decreases s.len(),
{
    if s.len() > 0 && sigil_level(s[0]) is Some {
        max_level(sigil_level(s[0])->Some_0, highest_from(s.skip(1)))
    } else {
        AccessLevel::Member
    }
}

/// The level after one mode string such as `+o` or `-v` is applied:
/// `+` raises to the granted level when it is higher; `-` drops to the
/// level below the revoked one when that level is currently held.
pub open spec fn spec_update(cur: AccessLevel, mode: Seq<char>) -> AccessLevel {
    if mode.len() >= 2 {
        match mode_level(mode[1]) {
            Some(l) => if mode[0] == '+' {
                if l.rank() > cur.rank() {
                    l
                } else {
                    cur
                }
            } else if mode[0] == '-' {
                if l.rank() == cur.rank() {
                    level_below(l)
                } else {
                    cur
                }
            } else {
                cur
            },
            None => cur,
        }
    } else {
        cur
    }
}

/// Mathematical form of a user.
#[verifier::ext_equal]
pub ghost struct UserView {
    pub nickname: Seq<char>,
    pub level: AccessLevel,
}

/// A channel member: bare nickname plus current highest access level.
#[derive(Debug, Clone)]
pub struct User {
    nickname: String,
    level: AccessLevel,
}

impl View for User {
    type V = UserView;

    closed spec fn view(&self) -> UserView {
        UserView { nickname: self.nickname@, level: self.level }
    }
}

impl DeepView for User {
    type V = UserView;

    open spec fn deep_view(&self) -> UserView {
        self@
    }
}

fn sigil_of(c: char) -> (r: Option<AccessLevel>)
    ensures
        r == sigil_level(c),
{
    match c {
        '~' => Some(AccessLevel::Owner),
        '&' => Some(AccessLevel::Admin),
        '@' => Some(AccessLevel::Oper),
        '%' => Some(AccessLevel::HalfOp),
        '+' => Some(AccessLevel::Voice),
        _ => None,
    }
}

impl User {
    /// Build a user from a displayed name, honouring its leading sigils.
    pub fn new(name: &str) -> (u: User)
        ensures
            u@.nickname == strip_sigils(name@),
            u@.level == highest_from(name@),
    {
        let n: usize = name.unicode_len();
        let mut i: usize = 0;
        let mut best = AccessLevel::Member;
        proof {
            assert(name@.skip(0) =~= name@);
        }
        loop
            invariant
                0 <= i <= n,
                n == name@.len(),
                strip_sigils(name@) == strip_sigils(name@.skip(i as int)),
                highest_from(name@) == max_level(best, highest_from(name@.skip(i as int))),
            ensures
                0 <= i <= n,
                n == name@.len(),
                strip_sigils(name@) == strip_sigils(name@.skip(i as int)),
                highest_from(name@) == max_level(best, highest_from(name@.skip(i as int))),
                i == n || sigil_level(name@.skip(i as int)[0]) is None,
            decreases n - i,
        {
            if i >= n {
                break;
            }
            let c = name.get_char(i);
            proof {
                assert(name@.skip(i as int)[0] == c);
                assert(name@.skip(i as int).skip(1) =~= name@.skip(i + 1));
            }
            match sigil_of(c) {
                Some(l) => {
                    best = if l.rank_exec() > best.rank_exec() {
                        l
                    } else {
                        best
                    };
                    i = i + 1;
                },
                None => {
                    break;
                },
            }
        }
        let nickname = String::from_str(name.substring_char(i, n));
        proof {
            assert(name@.subrange(i as int, n as int) =~= name@.skip(i as int));
            if i < n {
                assert(sigil_level(name@.skip(i as int)[0]) is None);
            }
            assert(strip_sigils(name@.skip(i as int)) == name@.skip(i as int));
            assert(highest_from(name@.skip(i as int)) == AccessLevel::Member);
        }
        User { nickname, level: best }
    }

    /// The user's current access level.
    pub fn access_level(&self) -> (l: AccessLevel)
        ensures
            l == self@.level,
    {
        self.level
    }

    /// The same user under a new displayed name: the bare nickname is
    /// taken from `name` with sigils stripped, the level is kept.
    pub fn renamed(&self, name: &str) -> (u: User)
        ensures
            u@.nickname == strip_sigils(name@),
            u@.level == self@.level,
    {
        let base = User::new(name);
        User { nickname: String::from_str(base.get_nickname()), level: self.level }
    }

    /// An equal copy of this user.
    pub fn duplicate(&self) -> (u: User)
        ensures
            u@ == self@,
    {
        User { nickname: self.nickname.clone(), level: self.level }
    }

    /// The user's bare nickname.
    pub fn get_nickname(&self) -> (r: &str)
        ensures
            r@ == self@.nickname,
    {
        self.nickname.as_str()
    }

    /// Apply one channel-mode string such as `+o` or `-v`.
    pub fn update_access_level(&mut self, mode: &str)
        ensures
            final(self)@.nickname == old(self)@.nickname,
            final(self)@.level == spec_update(old(self)@.level, mode@),
    {
        let n: usize = mode.unicode_len();
        if n >= 2 {
            let sign = mode.get_char(0);
            let letter = mode.get_char(1);
            let granted: Option<AccessLevel> = match letter {
                'q' => Some(AccessLevel::Owner),
                'a' => Some(AccessLevel::Admin),
                'o' => Some(AccessLevel::Oper),
                'h' => Some(AccessLevel::HalfOp),
                'v' => Some(AccessLevel::Voice),
                _ => None,
            };
            match granted {
                Some(l) => {
                    if sign == '+' {
                        if l.rank_exec() > self.level.rank_exec() {
                            self.level = l;
                        }
                    } else if sign == '-' {
                        if l.rank_exec() == self.level.rank_exec() {
                            self.level = match l {
                                AccessLevel::Owner => AccessLevel::Admin,
                                AccessLevel::Admin => AccessLevel::Oper,
                                AccessLevel::Oper => AccessLevel::HalfOp,
                                AccessLevel::HalfOp => AccessLevel::Voice,
                                AccessLevel::Voice => AccessLevel::Member,
                                AccessLevel::Member => AccessLevel::Member,
                            };
                        }
                    }
                },
                None => {},
            }
        }
    }
}

impl AccessLevel {
    /// Executable counterpart of `rank`.
    pub fn rank_exec(self) -> (r: u8)
        ensures
            r as int == self.rank(),
    {
        match self {
            AccessLevel::Owner => 5,
            AccessLevel::Admin => 4,
            AccessLevel::Oper => 3,
            AccessLevel::HalfOp => 2,
            AccessLevel::Voice => 1,
            AccessLevel::Member => 0,
        }
    }
}

impl PartialEq for User {
    /// User equality goes by the bare nickname alone.
    fn eq(&self, other: &User) -> (r: bool) {
        self.nickname == other.nickname
    }
}

impl vstd::std_specs::cmp::PartialEqSpecImpl for User {
    open spec fn obeys_eq_spec() -> bool {
        true
    }

    open spec fn eq_spec(&self, other: &User) -> bool {
        self@.nickname == other@.nickname
    }
}

/// A bare nickname has no leading sigils left: stripping is idempotent
/// and grants no level.
pub proof fn lemma_strip_idempotent(s: Seq<char>)
    ensures
        strip_sigils(strip_sigils(s)) == strip_sigils(s),
        highest_from(strip_sigils(s)) == AccessLevel::Member,
    decreases s.len(),
{
    if s.len() > 0 && sigil_level(s[0]) is Some {
        lemma_strip_idempotent(s.skip(1));
    }
}

/// Equality of users ignores sigils: adding any access sigil in front of
/// a name leaves the bare nickname unchanged.
pub proof fn lemma_eq_ignores_sigils(name: Seq<char>, c: char)
    requires
        sigil_level(c) is Some,
    ensures
        strip_sigils(seq![c] + name) == strip_sigils(name),
{
    assert((seq![c] + name)[0] == c);
    assert((seq![c] + name).skip(1) =~= name);
}

/// Access-level updates are idempotent: applying the same mode string
/// twice leaves the level where one application put it.
pub proof fn lemma_update_idempotent(l: AccessLevel, mode: Seq<char>)
    ensures
        spec_update(spec_update(l, mode), mode) == spec_update(l, mode),
{
}

} // verus!
