//! Interface for working with IRC servers: the protocol tracker. It owns
//! the connection and the per-channel user rosters, answers server PINGs,
//! joins the configured channels once the MOTD ends, and keeps the
//! rosters in step with NAMES replies, joins, parts, quits, kicks and
//! mode changes.

use vstd::prelude::*;
use crate::util::{find_idx, lemma_find_idx, str_eq, to_lower, lower_seq};
use crate::error::ProtocolError;
use crate::line::{LF, decoded_text, encoded_bytes};
use crate::config::{Config, key_lookup};
use crate::message::{Message, MessageView, spec_parse, spec_serialize};
use crate::user::{User, UserView, AccessLevel, strip_sigils, highest_from, spec_update};
use crate::conn::Connection;
use crate::codec::truncate_frame;
use crate::transport::is_pong;

verus! {

// ------------------------------------------------------------------
// The roster model: ordered channels, each an ordered list of users
// with pairwise-distinct bare nicknames.
// ------------------------------------------------------------------

/// Index of the user with this bare nickname, if present.
pub open spec fn user_idx(us: Seq<UserView>, nick: Seq<char>) -> Option<int>
    decreases us.len(),
{
    if us.len() == 0 {
        None
    } else if us[0].nickname == nick {
        Some(0)
    } else {
        match user_idx(us.skip(1), nick) {
            Some(i) => Some(i + 1),
            None => None,
        }
    }
}

/// How many users carry this bare nickname.
pub open spec fn count_nick(us: Seq<UserView>, nick: Seq<char>) -> nat
    decreases us.len(),
{
    if us.len() == 0 {
        0
    } else {
        (if us[0].nickname == nick {
            1nat
        } else {
            0nat
        }) + count_nick(us.skip(1), nick)
    }
}

/// No two users share a bare nickname.
pub open spec fn nicks_unique(us: Seq<UserView>) -> bool {
    forall|i: int, j: int| 0 <= i < j < us.len() ==> us[i].nickname != us[j].nickname
}

/// The user a displayed name (sigils and all) stands for.
pub open spec fn user_of(name: Seq<char>) -> UserView {
    UserView { nickname: strip_sigils(name), level: highest_from(name) }
}

/// Append the user unless the bare nickname is already present.
pub open spec fn add_user(us: Seq<UserView>, u: UserView) -> Seq<UserView> {
    if user_idx(us, u.nickname) is Some {
        us
    } else {
        us.push(u)
    }
}

/// Remove the user with this bare nickname, keeping the order of the rest.
pub open spec fn remove_user(us: Seq<UserView>, nick: Seq<char>) -> Seq<UserView> {
    match user_idx(us, nick) {
        Some(i) => us.remove(i),
        None => us,
    }
}

/// Apply a mode string to the user with this bare nickname.
pub open spec fn update_user(us: Seq<UserView>, nick: Seq<char>, mode: Seq<char>) -> Seq<
    UserView,
> {
    match user_idx(us, nick) {
        Some(i) => us.update(
            i,
            UserView { nickname: us[i].nickname, level: spec_update(us[i].level, mode) },
        ),
        None => us,
    }
}

/// Give the user `from` the bare nickname `to`, keeping the access
/// level; nothing changes when `from` is absent or `to` is taken.
pub open spec fn rename_user(us: Seq<UserView>, from: Seq<char>, to: Seq<char>) -> Seq<
    UserView,
> {
    match user_idx(us, from) {
        Some(i) => if user_idx(us, to) is Some {
            us
        } else {
            us.update(i, UserView { nickname: to, level: us[i].level })
        },
        None => us,
    }
}

/// Whitespace-separated tokens of a NAMES list; empty tokens are dropped.
pub open spec fn split_sp(s: Seq<char>) -> Seq<Seq<char>>
    decreases s.len(),
{
    match find_idx(s, ' ') {
        None => if s.len() > 0 {
            seq![s]
        } else {
            seq![]
        },
        Some(i) => if 0 <= i < s.len() {
            (if i > 0 {
                seq![s.subrange(0, i)]
            } else {
                seq![]
            }) + split_sp(s.skip(i + 1))
        } else {
            seq![]
        },
    }
}

/// Fold a NAMES list into a roster, de-duplicating by bare nickname.
pub open spec fn add_names(us: Seq<UserView>, names: Seq<Seq<char>>) -> Seq<UserView>
    decreases names.len(),
{
    if names.len() == 0 {
        us
    } else {
        add_names(add_user(us, user_of(names[0])), names.skip(1))
    }
}

// ------------------------------------------------------------------
// Laws of the roster operations.
// ------------------------------------------------------------------

proof fn lemma_count_idx(us: Seq<UserView>, nick: Seq<char>)
    ensures
        (user_idx(us, nick) is None) <==> count_nick(us, nick) == 0,
    decreases us.len(),
{
    if us.len() > 0 {
        lemma_count_idx(us.skip(1), nick);
    }
}

proof fn lemma_unique_count(us: Seq<UserView>, nick: Seq<char>)
    requires
        nicks_unique(us),
    ensures
        count_nick(us, nick) <= 1,
    decreases us.len(),
{
    if us.len() > 0 {
        assert(forall|i: int, j: int|
            0 <= i < j < us.skip(1).len() ==> us.skip(1)[i] == us[i + 1] && us.skip(1)[j] == us[j
                + 1]);
        lemma_unique_count(us.skip(1), nick);
        if us[0].nickname == nick {
            assert forall|j: int| 0 <= j < us.skip(1).len() implies us.skip(1)[j].nickname
                != nick by {
                assert(us.skip(1)[j] == us[j + 1]);
            }
            lemma_count_none(us.skip(1), nick);
        }
    }
}

proof fn lemma_count_none(us: Seq<UserView>, nick: Seq<char>)
    requires
        forall|j: int| 0 <= j < us.len() ==> us[j].nickname != nick,
    ensures
        count_nick(us, nick) == 0,
    decreases us.len(),
{
    if us.len() > 0 {
        assert(forall|j: int| 0 <= j < us.skip(1).len() ==> us.skip(1)[j] == us[j + 1]);
        lemma_count_none(us.skip(1), nick);
    }
}

proof fn lemma_count_push(us: Seq<UserView>, u: UserView, nick: Seq<char>)
    ensures
        count_nick(us.push(u), nick) == count_nick(us, nick) + (if u.nickname == nick {
            1nat
        } else {
            0nat
        }),
    decreases us.len(),
{
    let v = us.push(u);
    assert(v.len() == us.len() + 1);
    assert(count_nick(v, nick) == (if v[0].nickname == nick {
        1nat
    } else {
        0nat
    }) + count_nick(v.skip(1), nick));
    if us.len() == 0 {
        assert(v[0] == u);
        assert(v.skip(1) =~= Seq::<UserView>::empty());
        assert(count_nick(v.skip(1), nick) == 0);
    } else {
        assert(v[0] == us[0]);
        assert(v.skip(1) =~= us.skip(1).push(u));
        lemma_count_push(us.skip(1), u, nick);
        assert(count_nick(us, nick) == (if us[0].nickname == nick {
            1nat
        } else {
            0nat
        }) + count_nick(us.skip(1), nick));
    }
}

proof fn lemma_unique_push(us: Seq<UserView>, u: UserView)
    requires
        nicks_unique(us),
        user_idx(us, u.nickname) is None,
    ensures
        nicks_unique(us.push(u)),
{
    lemma_idx_props(us, u.nickname);
    let v = us.push(u);
    assert forall|i: int, j: int| 0 <= i < j < v.len() implies v[i].nickname != v[j].nickname by {
        if j == us.len() {
            assert(v[i] == us[i]);
            assert(v[j] == u);
        } else {
            assert(v[i] == us[i] && v[j] == us[j]);
        }
    }
}

/// What `user_idx` finds: the first user with the nickname, or none at all.
pub proof fn lemma_idx_props(us: Seq<UserView>, nick: Seq<char>)
    ensures
        match user_idx(us, nick) {
            Some(i) => 0 <= i < us.len() && us[i].nickname == nick && (forall|j: int|
                0 <= j < i ==> us[j].nickname != nick),
            None => forall|j: int| 0 <= j < us.len() ==> us[j].nickname != nick,
        },
    decreases us.len(),
{
    if us.len() > 0 && us[0].nickname != nick {
        lemma_idx_props(us.skip(1), nick);
        assert(forall|j: int| 0 <= j < us.skip(1).len() ==> us.skip(1)[j] == us[j + 1]);
        match user_idx(us.skip(1), nick) {
            Some(i) => {
                assert(us[i + 1] == us.skip(1)[i]);
                assert(forall|j: int| 1 <= j < i + 1 ==> us[j] == us.skip(1)[j - 1]);
            },
            None => {
                assert(forall|j: int| 1 <= j < us.len() ==> us[j] == us.skip(1)[j - 1]);
            },
        }
    }
}

/// Adding a user leaves the roster with that bare nickname exactly once,
/// and keeps nicknames pairwise distinct.
pub proof fn lemma_add_user_once(us: Seq<UserView>, u: UserView)
    requires
        nicks_unique(us),
    ensures
        count_nick(add_user(us, u), u.nickname) == 1,
        nicks_unique(add_user(us, u)),
{
    lemma_idx_props(us, u.nickname);
    match user_idx(us, u.nickname) {
        Some(i) => {
            lemma_count_idx(us, u.nickname);
            lemma_unique_count(us, u.nickname);
        },
        None => {
            lemma_count_idx(us, u.nickname);
            lemma_count_push(us, u, u.nickname);
            lemma_unique_push(us, u);
        },
    }
}

/// Removing a nickname leaves the roster without it, keeps the order and
/// presence of every other user, and keeps nicknames pairwise distinct.
pub proof fn lemma_remove_user_gone(us: Seq<UserView>, nick: Seq<char>)
    requires
        nicks_unique(us),
    ensures
        count_nick(remove_user(us, nick), nick) == 0,
        nicks_unique(remove_user(us, nick)),
{
    lemma_idx_props(us, nick);
    match user_idx(us, nick) {
        Some(i) => {
            let v = us.remove(i);
            lemma_unique_count(us, nick);
            assert forall|j: int| 0 <= j < v.len() implies v[j].nickname != nick by {
                if j < i {
                    assert(v[j] == us[j]);
                } else {
                    assert(v[j] == us[j + 1]);
                }
            }
            lemma_count_none(v, nick);
            assert forall|a: int, b: int| 0 <= a < b < v.len() implies v[a].nickname
                != v[b].nickname by {
                let a0 = if a < i {
                    a
                } else {
                    a + 1
                };
                let b0 = if b < i {
                    b
                } else {
                    b + 1
                };
                assert(v[a] == us[a0] && v[b] == us[b0]);
            }
        },
        None => {
            lemma_count_idx(us, nick);
        },
    }
}

/// A mode change touches no nickname: uniqueness and membership persist.
pub proof fn lemma_update_user_nicks(us: Seq<UserView>, nick: Seq<char>, mode: Seq<char>)
    requires
        nicks_unique(us),
    ensures
        nicks_unique(update_user(us, nick, mode)),
        update_user(us, nick, mode).len() == us.len(),
        forall|j: int|
            0 <= j < us.len() ==> #[trigger] update_user(us, nick, mode)[j].nickname
                == us[j].nickname,
{
    lemma_idx_props(us, nick);
}

/// A rename keeps nicknames pairwise distinct: the new name is only
/// taken when no user already carries it.
pub proof fn lemma_rename_unique(us: Seq<UserView>, from: Seq<char>, to: Seq<char>)
    requires
        nicks_unique(us),
    ensures
        nicks_unique(rename_user(us, from, to)),
{
    lemma_idx_props(us, from);
    lemma_idx_props(us, to);
    match user_idx(us, from) {
        Some(i) => {
            if user_idx(us, to) is None {
                let v = us.update(i, UserView { nickname: to, level: us[i].level });
                assert forall|a: int, b: int| 0 <= a < b < v.len() implies v[a].nickname
                    != v[b].nickname by {
                    if a != i && b != i {
                        assert(v[a] == us[a] && v[b] == us[b]);
                    } else if a == i {
                        assert(v[b] == us[b]);
                        assert(us[b].nickname != to);
                    } else {
                        assert(v[a] == us[a]);
                        assert(us[a].nickname != to);
                    }
                }
            }
        },
        None => {},
    }
}

/// Folding a NAMES list keeps nicknames pairwise distinct.
pub proof fn lemma_add_names_unique(us: Seq<UserView>, names: Seq<Seq<char>>)
    requires
        nicks_unique(us),
    ensures
        nicks_unique(add_names(us, names)),
    decreases names.len(),
{
    if names.len() > 0 {
        lemma_add_user_once(us, user_of(names[0]));
        lemma_add_names_unique(add_user(us, user_of(names[0])), names.skip(1));
    }
}

proof fn lemma_present_after_add(us: Seq<UserView>, u: UserView, n: Seq<char>)
    requires
        user_idx(us, n) is Some,
    ensures
        user_idx(add_user(us, u), n) is Some,
{
    lemma_idx_props(us, n);
    if user_idx(us, u.nickname) is None {
        let i = user_idx(us, n)->Some_0;
        let v = us.push(u);
        assert(v[i] == us[i]);
        lemma_idx_props(v, n);
        if user_idx(v, n) is None {
            assert(v[i].nickname != n);
            assert(false);
        }
    }
}

proof fn lemma_present_after_names(us: Seq<UserView>, names: Seq<Seq<char>>, n: Seq<char>)
    requires
        user_idx(us, n) is Some,
    ensures
        user_idx(add_names(us, names), n) is Some,
    decreases names.len(),
{
    if names.len() > 0 {
        lemma_present_after_add(us, user_of(names[0]), n);
        lemma_present_after_names(add_user(us, user_of(names[0])), names.skip(1), n);
    }
}

proof fn lemma_member_after_names(us: Seq<UserView>, names: Seq<Seq<char>>, k: int)
    requires
        0 <= k < names.len(),
    ensures
        user_idx(add_names(us, names), strip_sigils(names[k])) is Some,
    decreases names.len(),
{
    let u = user_of(names[0]);
    let us1 = add_user(us, u);
    if k == 0 {
        lemma_idx_props(us, u.nickname);
        if user_idx(us, u.nickname) is None {
            let v = us.push(u);
            assert(v[us.len() as int] == u);
            lemma_idx_props(v, u.nickname);
            if user_idx(v, u.nickname) is None {
                assert(false);
            }
        }
        lemma_present_after_names(us1, names.skip(1), u.nickname);
    } else {
        assert(names.skip(1)[k - 1] == names[k]);
        lemma_member_after_names(us1, names.skip(1), k - 1);
    }
}

/// After a NAMES reply is folded in, every listed name is in the roster
/// exactly once, whatever sigils it came with.
pub proof fn lemma_names_reply_once(us: Seq<UserView>, names: Seq<Seq<char>>, k: int)
    requires
        nicks_unique(us),
        0 <= k < names.len(),
    ensures
        count_nick(add_names(us, names), strip_sigils(names[k])) == 1,
{
    lemma_add_names_unique(us, names);
    lemma_member_after_names(us, names, k);
    lemma_count_idx(add_names(us, names), strip_sigils(names[k]));
    lemma_unique_count(add_names(us, names), strip_sigils(names[k]));
}

// ------------------------------------------------------------------
// The tracker: channel map, one step per inbound message.
// ------------------------------------------------------------------

/// Index of the roster for this (already lower-cased) channel name.
pub open spec fn roster_idx(rs: Seq<(Seq<char>, Seq<UserView>)>, name: Seq<char>) -> Option<int>
    decreases rs.len(),
{
    if rs.len() == 0 {
        None
    } else if rs[0].0 == name {
        Some(0)
    } else {
        match roster_idx(rs.skip(1), name) {
            Some(i) => Some(i + 1),
            None => None,
        }
    }
}

/// The roster of this channel, if the channel is known.
pub open spec fn lookup_roster(rs: Seq<(Seq<char>, Seq<UserView>)>, name: Seq<char>) -> Option<
    Seq<UserView>,
> {
    match roster_idx(rs, name) {
        Some(i) => Some(rs[i].1),
        None => None,
    }
}

/// What `roster_idx` finds: the first roster with the name, or none.
pub proof fn lemma_roster_idx_props(rs: Seq<(Seq<char>, Seq<UserView>)>, name: Seq<char>)
    ensures
        match roster_idx(rs, name) {
            Some(i) => 0 <= i < rs.len() && rs[i].0 == name,
            None => forall|j: int| 0 <= j < rs.len() ==> rs[j].0 != name,
        },
    decreases rs.len(),
{
    if rs.len() > 0 && rs[0].0 != name {
        lemma_roster_idx_props(rs.skip(1), name);
        assert(forall|j: int| 0 <= j < rs.skip(1).len() ==> rs.skip(1)[j] == rs[j + 1]);
        match roster_idx(rs.skip(1), name) {
            Some(i) => {
                assert(rs[i + 1] == rs.skip(1)[i]);
            },
            None => {
                assert(forall|j: int| 1 <= j < rs.len() ==> rs[j] == rs.skip(1)[j - 1]);
            },
        }
    }
}

/// A message's first parameter: the trailing part, else the first
/// middle argument. For JOIN and PART it names the channel; for NICK,
/// the new nickname.
pub open spec fn first_param(m: MessageView) -> Option<Seq<char>> {
    match m.suffix {
        Some(s) => Some(s),
        None => if m.args.len() > 0 {
            Some(m.args[0])
        } else {
            None
        },
    }
}

/// The sender's bare nickname, read from a `nick!user@host` prefix.
pub open spec fn sender_nick(m: MessageView) -> Option<Seq<char>> {
    match m.prefix {
        Some(p) => match find_idx(p, '!') {
            Some(i) => if 0 <= i <= p.len() {
                Some(strip_sigils(p.subrange(0, i)))
            } else {
                None
            },
            None => None,
        },
        None => None,
    }
}

/// Distinct channel names, each roster with distinct bare nicknames.
pub open spec fn rosters_wf(rs: Seq<(Seq<char>, Seq<UserView>)>) -> bool {
    &&& forall|i: int, j: int| 0 <= i < j < rs.len() ==> rs[i].0 != rs[j].0
    &&& forall|i: int| 0 <= i < rs.len() ==> nicks_unique(#[trigger] rs[i].1)
}

/// One tracker step: how an inbound message changes the channel map.
pub open spec fn roster_step(rs: Seq<(Seq<char>, Seq<UserView>)>, m: MessageView) -> Seq<
    (Seq<char>, Seq<UserView>),
> {
    if m.command == "353"@ {
        if m.args.len() == 3 && m.suffix is Some {
            let chan = lower_seq(m.args[2]);
            let names = split_sp(m.suffix->Some_0);
            match roster_idx(rs, chan) {
                Some(i) => rs.update(i, (rs[i].0, add_names(rs[i].1, names))),
                None => rs.push((chan, add_names(seq![], names))),
            }
        } else {
            rs
        }
    } else if m.command == "JOIN"@ || m.command == "PART"@ {
        match (first_param(m), sender_nick(m)) {
            (Some(c), Some(nick)) => {
                let chan = lower_seq(c);
                match roster_idx(rs, chan) {
                    Some(i) => if m.command == "JOIN"@ {
                        rs.update(
                            i,
                            (
                                rs[i].0,
                                add_user(
                                    rs[i].1,
                                    UserView { nickname: nick, level: AccessLevel::Member },
                                ),
                            ),
                        )
                    } else {
                        rs.update(i, (rs[i].0, remove_user(rs[i].1, nick)))
                    },
                    None => rs,
                }
            },
            _ => rs,
        }
    } else if m.command == "QUIT"@ {
        match sender_nick(m) {
            Some(nick) => Seq::new(rs.len(), |i: int| (rs[i].0, remove_user(rs[i].1, nick))),
            None => rs,
        }
    } else if m.command == "KICK"@ {
        if m.args.len() >= 2 {
            let chan = lower_seq(m.args[0]);
            let nick = strip_sigils(m.args[1]);
            match roster_idx(rs, chan) {
                Some(i) => rs.update(i, (rs[i].0, remove_user(rs[i].1, nick))),
                None => rs,
            }
        } else {
            rs
        }
    } else if m.command == "MODE"@ {
        if m.args.len() == 3 {
            let chan = lower_seq(m.args[0]);
            let nick = strip_sigils(m.args[2]);
            match roster_idx(rs, chan) {
                Some(i) => rs.update(i, (rs[i].0, update_user(rs[i].1, nick, m.args[1]))),
                None => rs,
            }
        } else {
            rs
        }
    } else if m.command == "NICK"@ {
        match (first_param(m), sender_nick(m)) {
            (Some(raw), Some(from)) => Seq::new(
                rs.len(),
                |i: int| (rs[i].0, rename_user(rs[i].1, from, strip_sigils(raw))),
            ),
            _ => rs,
        }
    } else {
        rs
    }
}

// ------------------------------------------------------------------
// Automatic replies.
// ------------------------------------------------------------------

/// The keep-alive reply to `PING :x`.
pub open spec fn pong_of(x: Seq<char>) -> MessageView {
    MessageView { tags: None, prefix: None, command: "PONG"@, args: seq![], suffix: Some(x) }
}

/// A `JOIN` for one channel, with its key when one is configured.
pub open spec fn join_of(chan: Seq<char>, key: Option<Seq<char>>) -> MessageView {
    MessageView {
        tags: None,
        prefix: None,
        command: "JOIN"@,
        args: match key {
            Some(k) => seq![chan, k],
            None => seq![chan],
        },
        suffix: None,
    }
}

/// The joins sent once registration completes, in configuration order.
pub open spec fn join_msgs(
    channels: Seq<Seq<char>>,
    keys: Seq<(Seq<char>, Seq<char>)>,
) -> Seq<MessageView>
    decreases channels.len(),
{
    if channels.len() == 0 {
        seq![]
    } else {
        seq![join_of(channels[0], key_lookup(keys, channels[0]))] + join_msgs(
            channels.skip(1),
            keys,
        )
    }
}

/// The user-mode change sent once registration completes.
pub open spec fn mode_msg(nick: Seq<char>, umodes: Seq<char>) -> MessageView {
    MessageView {
        tags: None,
        prefix: None,
        command: "MODE"@,
        args: seq![nick, umodes],
        suffix: None,
    }
}

/// The configured channels, viewed mathematically.
pub open spec fn config_channels(c: Config) -> Seq<Seq<char>> {
    Seq::new(c.channels@.len(), |i: int| c.channels@[i]@)
}

/// What the tracker sends at end of MOTD: the configured user modes when
/// any are set, then one JOIN per configured channel, in order.
pub open spec fn motd_msgs(c: Config) -> Seq<MessageView> {
    (if c.umodes@.len() > 0 {
        seq![mode_msg(c.nickname@, c.umodes@)]
    } else {
        Seq::<MessageView>::empty()
    }) + join_msgs(config_channels(c), c.spec_keys())
}

/// Everything the tracker writes in reaction to one inbound message: a
/// matching PONG for a PING, the user modes and joins at end of MOTD
/// (376) or its absence (422), and nothing else.
pub open spec fn auto_responses(c: Config, m: MessageView) -> Seq<MessageView> {
    if m.command == "PING"@ && m.suffix is Some {
        seq![pong_of(m.suffix->Some_0)]
    } else if m.command == "376"@ || m.command == "422"@ {
        motd_msgs(c)
    } else {
        seq![]
    }
}

/// `roster_idx` looks only at channel names: maps with the same names
/// in the same places agree on it.
proof fn lemma_roster_idx_same_keys(
    a: Seq<(Seq<char>, Seq<UserView>)>,
    b: Seq<(Seq<char>, Seq<UserView>)>,
    name: Seq<char>,
)
    requires
        a.len() == b.len(),
        forall|k: int| 0 <= k < a.len() ==> a[k].0 == b[k].0,
    ensures
        roster_idx(a, name) == roster_idx(b, name),
    decreases a.len(),
{
    if a.len() > 0 {
        assert(a[0].0 == b[0].0);
        assert(forall|k: int| 0 <= k < a.skip(1).len() ==> a.skip(1)[k] == a[k + 1]);
        assert(forall|k: int| 0 <= k < b.skip(1).len() ==> b.skip(1)[k] == b[k + 1]);
        lemma_roster_idx_same_keys(a.skip(1), b.skip(1), name);
    }
}

/// After a JOIN from a known sender into a known channel, that channel's
/// roster holds the sender's bare nickname exactly once.
pub proof fn lemma_join_adds_sender(rs: Seq<(Seq<char>, Seq<UserView>)>, m: MessageView)
    requires
        rosters_wf(rs),
        m.command == "JOIN"@,
        sender_nick(m) is Some,
        first_param(m) is Some,
        roster_idx(rs, lower_seq(first_param(m)->Some_0)) is Some,
    ensures
        lookup_roster(roster_step(rs, m), lower_seq(first_param(m)->Some_0)) is Some,
        count_nick(
            lookup_roster(roster_step(rs, m), lower_seq(first_param(m)->Some_0))->Some_0,
            sender_nick(m)->Some_0,
        ) == 1,
{
    lemma_cmds_distinct();
    let chan = lower_seq(first_param(m)->Some_0);
    let nick = sender_nick(m)->Some_0;
    let i = roster_idx(rs, chan)->Some_0;
    lemma_roster_idx_props(rs, chan);
    let u = UserView { nickname: nick, level: AccessLevel::Member };
    let rs2 = roster_step(rs, m);
    assert(rs2 == rs.update(i, (rs[i].0, add_user(rs[i].1, u))));
    lemma_roster_idx_same_keys(rs, rs2, chan);
    assert(lookup_roster(rs2, chan) == Some(add_user(rs[i].1, u)));
    lemma_add_user_once(rs[i].1, u);
}

/// After a PART from a known sender out of a known channel, that
/// channel's roster no longer holds the sender's bare nickname.
pub proof fn lemma_part_removes_sender(rs: Seq<(Seq<char>, Seq<UserView>)>, m: MessageView)
    requires
        rosters_wf(rs),
        m.command == "PART"@,
        sender_nick(m) is Some,
        first_param(m) is Some,
        roster_idx(rs, lower_seq(first_param(m)->Some_0)) is Some,
    ensures
        lookup_roster(roster_step(rs, m), lower_seq(first_param(m)->Some_0)) is Some,
        count_nick(
            lookup_roster(roster_step(rs, m), lower_seq(first_param(m)->Some_0))->Some_0,
            sender_nick(m)->Some_0,
        ) == 0,
{
    lemma_cmds_distinct();
    let chan = lower_seq(first_param(m)->Some_0);
    let nick = sender_nick(m)->Some_0;
    let i = roster_idx(rs, chan)->Some_0;
    lemma_roster_idx_props(rs, chan);
    let rs2 = roster_step(rs, m);
    assert(rs2 == rs.update(i, (rs[i].0, remove_user(rs[i].1, nick))));
    lemma_roster_idx_same_keys(rs, rs2, chan);
    assert(lookup_roster(rs2, chan) == Some(remove_user(rs[i].1, nick)));
    lemma_remove_user_gone(rs[i].1, nick);
}

/// The registration handshake a configuration asks for: `PASS` when a
/// server password is set, then `NICK` and `USER`.
pub open spec fn registration_msgs(c: Config) -> Seq<MessageView> {
    (if c.server_password@.len() > 0 {
        seq![
            MessageView {
                tags: None,
                prefix: None,
                command: "PASS"@,
                args: seq![c.server_password@],
                suffix: None,
            },
        ]
    } else {
        Seq::<MessageView>::empty()
    }) + seq![
        MessageView {
            tags: None,
            prefix: None,
            command: "NICK"@,
            args: seq![c.nickname@],
            suffix: None,
        },
        MessageView {
            tags: None,
            prefix: None,
            command: "USER"@,
            args: seq![c.username@, "0"@, "*"@],
            suffix: Some(c.realname@),
        },
    ]
}

/// For every inbound `PING :x` the tracker's whole reply is the matching
/// `PONG :x`: it is enqueued before any other outbound message can follow
/// from the same handling step.
pub proof fn lemma_ping_draws_pong(c: Config, m: MessageView)
    requires
        m.command == "PING"@,
        m.suffix is Some,
    ensures
        auto_responses(c, m) == seq![pong_of(m.suffix->Some_0)],
{
}

/// The command words the tracker reacts to are pairwise distinct.
proof fn lemma_cmds_distinct()
    ensures
        "PING"@ != "353"@ && "PING"@ != "JOIN"@ && "PING"@ != "PART"@ && "PING"@ != "QUIT"@
            && "PING"@ != "KICK"@ && "PING"@ != "MODE"@ && "PING"@ != "376"@ && "PING"@
            != "422"@,
        "376"@ != "353"@ && "376"@ != "JOIN"@ && "376"@ != "PART"@ && "376"@ != "QUIT"@ && "376"@
            != "KICK"@ && "376"@ != "MODE"@,
        "422"@ != "353"@ && "422"@ != "JOIN"@ && "422"@ != "PART"@ && "422"@ != "QUIT"@ && "422"@
            != "KICK"@ && "422"@ != "MODE"@,
        "353"@ != "PING"@ && "353"@ != "376"@ && "353"@ != "422"@,
        "JOIN"@ != "PING"@ && "JOIN"@ != "376"@ && "JOIN"@ != "422"@ && "JOIN"@ != "353"@,
        "PART"@ != "PING"@ && "PART"@ != "376"@ && "PART"@ != "422"@ && "PART"@ != "353"@
            && "PART"@ != "JOIN"@,
        "QUIT"@ != "PING"@ && "QUIT"@ != "376"@ && "QUIT"@ != "422"@ && "QUIT"@ != "353"@
            && "QUIT"@ != "JOIN"@ && "QUIT"@ != "PART"@,
        "KICK"@ != "PING"@ && "KICK"@ != "376"@ && "KICK"@ != "422"@ && "KICK"@ != "353"@
            && "KICK"@ != "JOIN"@ && "KICK"@ != "PART"@ && "KICK"@ != "QUIT"@,
        "MODE"@ != "PING"@ && "MODE"@ != "376"@ && "MODE"@ != "422"@ && "MODE"@ != "353"@
            && "MODE"@ != "JOIN"@ && "MODE"@ != "PART"@ && "MODE"@ != "QUIT"@ && "MODE"@
            != "KICK"@,
        "NICK"@ != "PING"@ && "NICK"@ != "376"@ && "NICK"@ != "422"@ && "NICK"@ != "353"@
            && "NICK"@ != "JOIN"@ && "NICK"@ != "PART"@ && "NICK"@ != "QUIT"@ && "NICK"@
            != "KICK"@ && "NICK"@ != "MODE"@,
{
    reveal_strlit("PING");
    reveal_strlit("376");
    reveal_strlit("422");
    reveal_strlit("353");
    reveal_strlit("JOIN");
    reveal_strlit("PART");
    reveal_strlit("QUIT");
    reveal_strlit("KICK");
    reveal_strlit("MODE");
    reveal_strlit("NICK");
    assert("PING"@ =~= seq!['P', 'I', 'N', 'G']);
    assert("376"@ =~= seq!['3', '7', '6']);
    assert("422"@ =~= seq!['4', '2', '2']);
    assert("353"@ =~= seq!['3', '5', '3']);
    assert("JOIN"@ =~= seq!['J', 'O', 'I', 'N']);
    assert("PART"@ =~= seq!['P', 'A', 'R', 'T']);
    assert("QUIT"@ =~= seq!['Q', 'U', 'I', 'T']);
    assert("KICK"@ =~= seq!['K', 'I', 'C', 'K']);
    assert("MODE"@ =~= seq!['M', 'O', 'D', 'E']);
    assert("NICK"@ =~= seq!['N', 'I', 'C', 'K']);
}

/// A message whose command the roster logic ignores changes nothing.
proof fn lemma_step_keeps(rs: Seq<(Seq<char>, Seq<UserView>)>, m: MessageView)
    requires
        m.command != "353"@,
        m.command != "JOIN"@,
        m.command != "PART"@,
        m.command != "QUIT"@,
        m.command != "KICK"@,
        m.command != "MODE"@,
        m.command != "NICK"@,
    ensures
        roster_step(rs, m) == rs,
{
}

/// A message that is no PING and no end of MOTD draws no reply.
proof fn lemma_no_responses(c: Config, m: MessageView)
    requires
        m.command != "PING"@,
        m.command != "376"@,
        m.command != "422"@,
    ensures
        auto_responses(c, m) == Seq::<MessageView>::empty(),
{
    assert(auto_responses(c, m) =~= Seq::<MessageView>::empty());
}

/// Replacing one roster with a nick-unique one keeps the map well-formed.
proof fn lemma_wf_update(rs: Seq<(Seq<char>, Seq<UserView>)>, i: int, us2: Seq<UserView>)
    requires
        rosters_wf(rs),
        0 <= i < rs.len(),
        nicks_unique(us2),
    ensures
        rosters_wf(rs.update(i, (rs[i].0, us2))),
{
    let v = rs.update(i, (rs[i].0, us2));
    assert forall|a: int, b: int| 0 <= a < b < v.len() implies v[a].0 != v[b].0 by {
        assert(v[a].0 == rs[a].0);
        assert(v[b].0 == rs[b].0);
    }
    assert forall|a: int| 0 <= a < v.len() implies nicks_unique(#[trigger] v[a].1) by {
        if a != i {
            assert(v[a].1 == rs[a].1);
        }
    }
}

/// Adding a fresh channel keeps the map well-formed.
proof fn lemma_wf_push(rs: Seq<(Seq<char>, Seq<UserView>)>, nm: Seq<char>, us2: Seq<UserView>)
    requires
        rosters_wf(rs),
        forall|k: int| 0 <= k < rs.len() ==> rs[k].0 != nm,
        nicks_unique(us2),
    ensures
        rosters_wf(rs.push((nm, us2))),
{
    let v = rs.push((nm, us2));
    assert forall|a: int, b: int| 0 <= a < b < v.len() implies v[a].0 != v[b].0 by {
        assert(v[a] == rs[a]);
        if b < rs.len() {
            assert(v[b] == rs[b]);
        } else {
            assert(v[b].0 == nm);
        }
    }
    assert forall|a: int| 0 <= a < v.len() implies nicks_unique(#[trigger] v[a].1) by {
        if a < rs.len() {
            assert(v[a].1 == rs[a].1);
        } else {
            assert(v[a].1 == us2);
        }
    }
}

// ------------------------------------------------------------------
// The server.
// ------------------------------------------------------------------

/// The exact outcome of writing one message `mv` through the server's
/// transport: on success the log gains exactly that message and the wire
/// bytes its capped encoding; each failure happens only under its own
/// condition and leaves the log and wire bytes unchanged.
pub open spec fn send_outcome(
    pre: IrcServer,
    post: IrcServer,
    mv: MessageView,
    r: Result<(), ProtocolError>,
) -> bool {
    match r {
        Ok(()) => !pre.spec_closed() && post.spec_out_log() == pre.spec_out_log().push(mv)
            && (match encoded_bytes(pre.spec_label(), spec_serialize(mv)) {
            Some(b) => post.spec_written() == pre.spec_written() + truncate_frame(
                mv.tags is Some,
                b,
            ),
            None => false,
        }),
        Err(ProtocolError::ConnectionClosed) => pre.spec_closed() && post.spec_out_log()
            == pre.spec_out_log() && post.spec_written() == pre.spec_written(),
        Err(ProtocolError::FloodWait) => !pre.spec_closed() && !is_pong(mv) && pre.spec_tokens()
            == 0 && post.spec_out_log() == pre.spec_out_log() && post.spec_written()
            == pre.spec_written(),
        Err(ProtocolError::CodecFailed { codec, data }) => codec@ == pre.spec_label() && data@
            == spec_serialize(mv) && post.spec_out_log() == pre.spec_out_log()
            && post.spec_written() == pre.spec_written(),
        Err(_) => false,
    }
}

/// Trait describing core server functionality.
pub trait Server {
    /// The invariant the server keeps between calls.
    spec fn inv(&self) -> bool;

    /// Gets the configuration being used with this server.
    fn config(&self) -> &Config
        requires
            self.inv(),
    ;

    /// Sends a message to this server.
    fn send(&mut self, cmd: Message) -> (r: Result<(), ProtocolError>)
        requires
            old(self).inv(),
        ensures
            final(self).inv(),
    ;

    /// Gets a list of users in the specified channel.
    fn list_users(&self, chan: &str) -> Option<Vec<User>>
        requires
            self.inv(),
    ;
}

/// One channel's roster.
struct ChannelRoster {
    name: String,
    users: Vec<User>,
}

/// An IRC server connection with protocol tracking.
pub struct IrcServer {
    config: Config,
    conn: Connection,
    chanlists: Vec<ChannelRoster>,
}

impl IrcServer {
    /// The channel map, viewed mathematically.
    pub closed spec fn spec_rosters(&self) -> Seq<(Seq<char>, Seq<UserView>)> {
        Seq::new(
            self.chanlists@.len(),
            |i: int| (self.chanlists@[i].name@, self.chanlists@[i].users.deep_view()),
        )
    }

    /// The connection inside.
    pub closed spec fn conn_of(&self) -> Connection {
        self.conn
    }

    /// The configuration inside.
    pub closed spec fn spec_config(&self) -> Config {
        self.config
    }

    /// The configured channels to join, in order.
    pub open spec fn spec_channels(&self) -> Seq<Seq<char>> {
        config_channels(self.spec_config())
    }

    /// The messages this server has written, oldest first.
    pub open spec fn spec_out_log(&self) -> Seq<MessageView> {
        self.conn_of().transport_of().spec_out_log()
    }

    /// Whether the transport has been closed.
    pub open spec fn spec_closed(&self) -> bool {
        self.conn_of().transport_of().spec_closed()
    }

    /// Flood tokens left in the current burst window.
    pub open spec fn spec_tokens(&self) -> int {
        self.conn_of().transport_of().spec_tokens()
    }

    /// The encoding label of the connection.
    pub open spec fn spec_label(&self) -> Seq<char> {
        self.conn_of().transport_of().spec_label()
    }

    /// Bytes queued for the wire and not yet taken by a pump.
    pub open spec fn spec_written(&self) -> Seq<u8> {
        self.conn_of().transport_of().spec_written()
    }

    pub open spec fn wf(&self) -> bool {
        self.conn_of().wf() && rosters_wf(self.spec_rosters())
    }

    /// Creates an IRC server from the specified configuration, and any
    /// arbitrary connection.
    pub fn from_connection(config: Config, conn: Connection) -> (s: IrcServer)
        requires
            conn.wf(),
        ensures
            s.wf(),
            s.conn_of() == conn,
            s.spec_config() == config,
            s.spec_rosters() == Seq::<(Seq<char>, Seq<UserView>)>::empty(),
    {
        let s = IrcServer { config, conn, chanlists: Vec::new() };
        proof {
            assert(s.spec_rosters() =~= Seq::<(Seq<char>, Seq<UserView>)>::empty());
        }
        s
    }

    /// Creates a new IRC server connection from the configuration,
    /// with a mock connection when the configuration asks for one.
    pub fn from_config(config: Config) -> (r: Result<IrcServer, ProtocolError>)
        ensures
            match r {
                Ok(s) => s.wf() && s.spec_config() == config && s.spec_rosters() == Seq::<
                    (Seq<char>, Seq<UserView>),
                >::empty() && s.spec_out_log() == Seq::<MessageView>::empty(),
                Err(_) => true,
            },
    {
        let conn = match Connection::new(&config) {
            Ok(c) => c,
            Err(e) => {
                return Err(e);
            },
        };
        Ok(Self::from_connection(config, conn))
    }

    /// Gets the configuration being used with this server.
    pub fn config(&self) -> (r: &Config)
        ensures
            *r == self.spec_config(),
    {
        &self.config
    }

    /// Gets a reference to the IRC server's connection.
    pub fn conn(&self) -> (r: &Connection)
        ensures
            *r == self.conn_of(),
    {
        &self.conn
    }

    /// Sends a message to this server.
    pub fn send(&mut self, cmd: Message) -> (r: Result<(), ProtocolError>)
        requires
            old(self).wf(),
        ensures
            final(self).wf(),
            final(self).spec_config() == old(self).spec_config(),
            final(self).spec_rosters() == old(self).spec_rosters(),
            final(self).conn_of().same_kind(&old(self).conn_of()),
            final(self).conn_of().transport_of().spec_label() == old(self).conn_of().transport_of().spec_label(),
            final(self).conn_of().transport_of().spec_read_buf() == old(self).conn_of().transport_of().spec_read_buf(),
            final(self).spec_closed() == old(self).spec_closed(),
            send_outcome(*old(self), *final(self), cmd@, r),
    {
        let r = self.conn.send(cmd);
        proof {
            assert(final(self).spec_rosters() =~= old(self).spec_rosters());
        }
        r
    }

    /// Gets a list of users in the specified channel, as a snapshot
    /// copy; none if the channel is unknown.
    pub fn list_users(&self, chan: &str) -> (r: Option<Vec<User>>)
        ensures
            match lookup_roster(self.spec_rosters(), lower_seq(chan@)) {
                Some(us) => r matches Some(v) && v.deep_view() == us,
                None => r is None,
            },
    {
        let lchan = to_lower(chan);
        match self.find_chan(lchan.as_str()) {
            Some(i) => Some(copy_users(&self.chanlists[i].users)),
            None => None,
        }
    }

    /// Index of a channel's roster; `lchan` must already be lower-cased.
    fn find_chan(&self, lchan: &str) -> (r: Option<usize>)
        ensures
            match r {
                Some(i) => roster_idx(self.spec_rosters(), lchan@) == Some(i as int) && i
                    < self.spec_rosters().len(),
                None => roster_idx(self.spec_rosters(), lchan@) is None,
            },
    {
        let ghost rs = self.spec_rosters();
        let n: usize = self.chanlists.len();
        let mut i: usize = 0;
        proof {
            assert(rs.skip(0) =~= rs);
        }
        while i < n
            invariant
                0 <= i <= n,
                n == self.chanlists@.len(),
                n == rs.len(),
                rs == self.spec_rosters(),
                roster_idx(rs, lchan@) == (match roster_idx(rs.skip(i as int), lchan@) {
                    Some(k) => Some(k + i),
                    None => None::<int>,
                }),
            decreases n - i,
        {
            proof {
                assert(rs.skip(i as int)[0] == rs[i as int]);
                assert(rs.skip(i as int).skip(1) =~= rs.skip(i + 1));
                lemma_roster_idx_props(rs.skip(i as int), lchan@);
            }
            if str_eq(self.chanlists[i].name.as_str(), lchan) {
                return Some(i);
            }
            i = i + 1;
        }
        None
    }
}

/// A snapshot copy of a roster.
fn copy_users(us: &Vec<User>) -> (r: Vec<User>)
    ensures
        r.deep_view() == us.deep_view(),
{
    let n: usize = us.len();
    let mut out: Vec<User> = Vec::new();
    let mut i: usize = 0;
    while i < n
        invariant
            0 <= i <= n,
            n == us@.len(),
            out.deep_view() =~= us.deep_view().take(i as int),
        decreases n - i,
    {
        let ghost pre = out.deep_view();
        let ghost prev = out@;
        let d = us[i].duplicate();
        out.push(d);
        proof {
            assert(out@ == prev.push(d));
            assert(us.deep_view().len() == n);
            assert(pre.len() == i as int);
            assert(prev.len() == i as int);
            assert(out@.len() == i as int + 1);
            assert forall|k: int| 0 <= k < out.deep_view().len() implies out.deep_view()[k]
                == us.deep_view().take(i as int + 1)[k] by {
                assert(out.deep_view()[k] == out@[k].deep_view());
                if k < i as int {
                    assert(out@[k] == prev[k]);
                    assert(pre[k] == prev[k].deep_view());
                    assert(pre[k] == us.deep_view().take(i as int)[k]);
                    assert(us.deep_view().take(i as int)[k] == us.deep_view()[k]);
                } else {
                    assert(out@[k] == d);
                    assert(us.deep_view()[k] == us@[k].deep_view());
                }
            }
            assert(out.deep_view() =~= us.deep_view().take(i as int + 1));
        }
        i = i + 1;
    }
    proof {
        assert(us.deep_view().take(n as int) =~= us.deep_view());
    }
    out
}

/// A message with only a command, arguments and an optional trailing part.
fn plain_msg(command: &str, args: Vec<String>, suffix: Option<String>) -> (m: Message)
    ensures
        m@.tags is None,
        m@.prefix is None,
        m@.command == command@,
        m@.args == args.deep_view(),
        m@.suffix == (match suffix {
            Some(s) => Some(s@),
            None => None::<Seq<char>>,
        }),
{
    Message { tags: None, prefix: None, command: String::from_str(command), args, suffix }
}

/// Append one user, reflected in the deep view.
fn push_user(users: &mut Vec<User>, u: User)
    ensures
        final(users).deep_view() == old(users).deep_view().push(u@),
{
    let ghost prev = users@;
    users.push(u);
    proof {
        crate::util::lemma_deep_push(prev, u);
        assert(old(users).deep_view() =~= crate::util::deep_of(prev));
        assert(users.deep_view() =~= crate::util::deep_of(prev.push(u)));
    }
}

/// Fold a NAMES list into a roster, de-duplicating by bare nickname.
fn add_tokens(users: &mut Vec<User>, tokens: &Vec<String>)
    requires
        nicks_unique(old(users).deep_view()),
    ensures
        final(users).deep_view() == add_names(old(users).deep_view(), tokens.deep_view()),
        nicks_unique(final(users).deep_view()),
{
    let ghost names = tokens.deep_view();
    let n: usize = tokens.len();
    let mut k: usize = 0;
    proof {
        assert(names.skip(0) =~= names);
        assert(names.len() == n);
    }
    while k < n
        invariant
            0 <= k <= n,
            n == tokens@.len(),
            names == tokens.deep_view(),
            names.len() == n,
            nicks_unique(users.deep_view()),
            add_names(old(users).deep_view(), names) == add_names(
                users.deep_view(),
                names.skip(k as int),
            ),
        decreases n - k,
    {
        let ghost cur = users.deep_view();
        proof {
            assert(names.skip(k as int)[0] == names[k as int]);
            assert(names[k as int] == tokens@[k as int]@);
            assert(names.skip(k as int).skip(1) =~= names.skip(k as int + 1));
        }
        let u = User::new(tokens[k].as_str());
        proof {
            assert(u@ =~= user_of(names[k as int]));
        }
        match user_pos(users, u.get_nickname()) {
            Some(_) => {
                proof {
                    assert(add_user(cur, user_of(names[k as int])) == cur);
                }
            },
            None => {
                proof {
                    lemma_add_user_once(cur, u@);
                    assert(add_user(cur, user_of(names[k as int])) == cur.push(u@));
                }
                push_user(users, u);
            },
        }
        k = k + 1;
    }
    proof {
        assert(names.skip(n as int) =~= Seq::<Seq<char>>::empty());
    }
}

/// The view of a channel list as a channel map.
spec fn rosters_of(ch: Seq<ChannelRoster>) -> Seq<(Seq<char>, Seq<UserView>)> {
    Seq::new(ch.len(), |i: int| (ch[i].name@, ch[i].users.deep_view()))
}

proof fn lemma_rosters_update(a: Seq<ChannelRoster>, b: Seq<ChannelRoster>, i: int)
    requires
        0 <= i < a.len(),
        b.len() == a.len(),
        forall|k: int| 0 <= k < a.len() && k != i ==> #[trigger] b[k] == a[k],
        b[i].name@ == a[i].name@,
    ensures
        rosters_of(b) =~= rosters_of(a).update(i, (rosters_of(a)[i].0, b[i].users.deep_view())),
{
    assert forall|k: int| 0 <= k < a.len() implies rosters_of(b)[k] == rosters_of(a).update(
        i,
        (rosters_of(a)[i].0, b[i].users.deep_view()),
    )[k] by {
        if k != i {
            assert(b[k] == a[k]);
        }
    }
}

/// Messages still framed in the inbound bytes: the buffer left and the
/// first parseable line's message, skipping unparseable lines.
pub open spec fn spec_pump(label: Seq<char>, buf: Seq<u8>) -> (Seq<u8>, Option<MessageView>)
    decreases buf.len(),
{
    match find_idx(buf, LF) {
        None => (buf, None),
        Some(i) => if 0 <= i < buf.len() {
            let text = decoded_text(label, buf.subrange(0, i + 1));
            match spec_parse(text) {
                Some(v) => (buf.skip(i + 1), Some(v)),
                None => spec_pump(label, buf.skip(i + 1)),
            }
        } else {
            (buf, None)
        },
    }
}

impl IrcServer {
    /// Handles messages internally for basic bot functionality: answer
    /// PINGs, join the configured channels at end of MOTD, and keep the
    /// channel rosters in step.
    #[verifier::spinoff_prover]
    #[verifier::rlimit(60)]
    pub fn handle_message(&mut self, message: &Message) -> (r: Result<(), ProtocolError>)
        requires
            old(self).wf(),
        ensures
            final(self).wf(),
            final(self).spec_config() == old(self).spec_config(),
            final(self).conn_of().same_kind(&old(self).conn_of()),
            final(self).conn_of().transport_of().spec_label() == old(self).conn_of().transport_of().spec_label(),
            final(self).conn_of().transport_of().spec_read_buf() == old(self).conn_of().transport_of().spec_read_buf(),
            final(self).spec_rosters() == roster_step(old(self).spec_rosters(), message@),
            old(self).spec_out_log().is_prefix_of(final(self).spec_out_log()),
            final(self).spec_closed() == old(self).spec_closed(),
            match r {
                Ok(()) => final(self).spec_out_log() == old(self).spec_out_log() + auto_responses(
                    old(self).spec_config(),
                    message@,
                ),
                Err(ProtocolError::ConnectionClosed) => old(self).spec_closed(),
                Err(ProtocolError::FloodWait) => !old(self).spec_closed() && final(self).spec_tokens() == 0,
                Err(ProtocolError::CodecFailed { codec, data }) => codec@ == old(self).spec_label() && (exists|k: int|
                    0 <= k < auto_responses(old(self).spec_config(), message@).len() && data@
                        == spec_serialize(
                        #[trigger] auto_responses(old(self).spec_config(), message@)[k],
                    )),
                Err(_) => false,
            },
    {
        proof {
            reveal_strlit("PING");
            reveal_strlit("PONG");
            reveal_strlit("376");
            reveal_strlit("422");
            reveal_strlit("353");
            reveal_strlit("JOIN");
            reveal_strlit("PART");
            reveal_strlit("QUIT");
            reveal_strlit("KICK");
            reveal_strlit("MODE");
        }
        let ghost rs0 = self.spec_rosters();
        let ghost log0 = self.spec_out_log();
        let ghost mv = message@;
        if str_eq(message.command.as_str(), "PING") {
            match &message.suffix {
                Some(x) => {
                    let empty_args: Vec<String> = Vec::new();
                    proof {
                        assert(empty_args.deep_view() =~= Seq::<Seq<char>>::empty());
                    }
                    let pong = plain_msg("PONG", empty_args, Some(x.clone()));
                    proof {
                        assert(pong@ =~= pong_of(x@));
                    }
                    let r = self.conn.send(pong);
                    proof {
                        assert(final(self).spec_rosters() =~= rs0);
                        lemma_cmds_distinct();
                        lemma_step_keeps(rs0, mv);
                        let responses = auto_responses(old(self).spec_config(), mv);
                        assert(responses =~= seq![pong_of(x@)]);
                        match r {
                            Ok(()) => {
                                assert(final(self).spec_out_log() =~= log0 + seq![pong_of(x@)]);
                                assert((log0 + seq![pong_of(x@)]).subrange(0, log0.len() as int)
                                    =~= log0);
                            },
                            Err(_) => {
                                assert(is_pong(pong@));
                                assert(final(self).spec_out_log() == log0);
                                assert(log0.subrange(0, log0.len() as int) =~= log0);
                                assert(responses[0] == pong_of(x@));
                            },
                        }
                    }
                    r
                },
                None => {
                    proof {
                        assert(final(self).spec_rosters() =~= rs0);
                        lemma_cmds_distinct();
                        lemma_step_keeps(rs0, mv);
                        assert(log0 + Seq::<MessageView>::empty() =~= log0);
                        assert(log0.subrange(0, log0.len() as int) =~= log0);
                    }
                    Ok(())
                },
            }
        } else if str_eq(message.command.as_str(), "376") || str_eq(
            message.command.as_str(),
            "422",
        ) {
            let ghost cfg = self.spec_config();
            let ghost responses = auto_responses(cfg, mv);
            let ghost joins = join_msgs(config_channels(cfg), cfg.spec_keys());
            if self.config.umodes.as_str().unicode_len() > 0 {
                let mut margs: Vec<String> = Vec::new();
                margs.push(self.config.nickname.clone());
                margs.push(self.config.umodes.clone());
                proof {
                    assert(margs.deep_view() =~= seq![cfg.nickname@, cfg.umodes@]);
                }
                let mode = plain_msg("MODE", margs, None);
                proof {
                    assert(mode@ =~= mode_msg(cfg.nickname@, cfg.umodes@));
                }
                match self.conn.send(mode) {
                    Ok(()) => {},
                    Err(e) => {
                        proof {
                            assert(final(self).spec_rosters() =~= rs0);
                            lemma_cmds_distinct();
                            lemma_step_keeps(rs0, mv);
                            assert(final(self).spec_out_log() == log0);
                            assert(log0.subrange(0, log0.len() as int) =~= log0);
                            assert(responses =~= seq![mode_msg(cfg.nickname@, cfg.umodes@)]
                                + joins);
                            assert(responses[0] == mode_msg(cfg.nickname@, cfg.umodes@));
                        }
                        return Err(e);
                    },
                }
            }
            let ghost mid_log = self.spec_out_log();
            let r = self.send_joins(0);
            proof {
                assert(final(self).spec_rosters() =~= rs0);
                lemma_cmds_distinct();
                lemma_step_keeps(rs0, mv);
                assert(old(self).spec_channels().skip(0) =~= old(self).spec_channels());
                if cfg.umodes@.len() > 0 {
                    assert(responses =~= seq![mode_msg(cfg.nickname@, cfg.umodes@)] + joins);
                    assert(mid_log =~= log0 + seq![mode_msg(cfg.nickname@, cfg.umodes@)]);
                } else {
                    assert(responses =~= joins);
                    assert(mid_log == log0);
                }
                match &r {
                    Ok(()) => {
                        assert(final(self).spec_out_log() =~= log0 + responses);
                        assert(final(self).spec_out_log().subrange(0, log0.len() as int)
                            =~= log0);
                    },
                    Err(e) => {
                        assert(final(self).spec_out_log().subrange(0, mid_log.len() as int)
                            =~= mid_log);
                        assert(final(self).spec_out_log().subrange(0, log0.len() as int)
                            =~= log0);
                        match e {
                            ProtocolError::CodecFailed { codec, data } => {
                                let k = choose|k: int|
                                    0 <= k < joins.len() && data@ == spec_serialize(
                                        #[trigger] joins[k],
                                    );
                                if cfg.umodes@.len() > 0 {
                                    assert(responses[k + 1] == joins[k]);
                                } else {
                                    assert(responses[k] == joins[k]);
                                }
                            },
                            _ => {},
                        }
                    },
                }
            }
            r
        } else {
            if str_eq(message.command.as_str(), "353") {
                self.on_names(message);
            } else if str_eq(message.command.as_str(), "JOIN") || str_eq(
                message.command.as_str(),
                "PART",
            ) {
                self.on_join_part(message);
            } else if str_eq(message.command.as_str(), "QUIT") {
                self.on_quit(message);
            } else if str_eq(message.command.as_str(), "KICK") {
                self.on_kick(message);
            } else if str_eq(message.command.as_str(), "MODE") {
                self.on_mode(message);
            } else if str_eq(message.command.as_str(), "NICK") {
                self.on_nick(message);
            } else {
                proof {
                    lemma_step_keeps(rs0, mv);
                    assert(final(self).spec_rosters() =~= rs0);
                }
            }
            proof {
                lemma_cmds_distinct();
                lemma_no_responses(old(self).spec_config(), mv);
                assert(final(self).spec_out_log() == log0);
                assert(log0.subrange(0, log0.len() as int) =~= log0);
                assert(log0 + Seq::<MessageView>::empty() =~= log0);
            }
            Ok(())
        }
    }

    /// Track a NAMES reply: fold its users into the channel's roster.
    #[verifier::spinoff_prover]
    #[verifier::rlimit(60)]
    fn on_names(&mut self, message: &Message)
        requires
            old(self).wf(),
            message@.command == "353"@,
        ensures
            final(self).wf(),
            final(self).spec_config() == old(self).spec_config(),
            final(self).conn_of() == old(self).conn_of(),
            final(self).spec_rosters() == roster_step(old(self).spec_rosters(), message@),
    {
        let ghost rs0 = self.spec_rosters();
        let ghost mv = message@;
        if message.args.len() == 3 {
            match &message.suffix {
                Some(sfx) => {
                    proof {
                        lemma_cmds_distinct();
                    }
                    let lchan = to_lower(message.args[2].as_str());
                    proof {
                        assert(mv.args[2] == message.args@[2]@);
                        assert(lchan@ == lower_seq(mv.args[2]));
                    }
                    let tokens = split_tokens(sfx.as_str());
                    match self.find_chan(lchan.as_str()) {
                        Some(i) => {
                            let ghost pre_ch = self.chanlists@;
                            let entry = self.chanlists.remove(i);
                            let name = entry.name;
                            let mut users = entry.users;
                            proof {
                                assert(rs0[i as int].1 == users.deep_view());
                                assert(nicks_unique(users.deep_view()));
                            }
                            add_tokens(&mut users, &tokens);
                            let newe = ChannelRoster { name, users };
                            self.chanlists.insert(i, newe);
                            proof {
                                assert(self.chanlists@.len() == pre_ch.len());
                                assert(forall|k: int|
                                    0 <= k < pre_ch.len() && k != i ==> #[trigger] self.chanlists@[k]
                                        == pre_ch[k]);
                                lemma_rosters_update(pre_ch, self.chanlists@, i as int);
                                assert(rs0 =~= rosters_of(pre_ch));
                                assert(final(self).spec_rosters() =~= rosters_of(
                                    self.chanlists@,
                                ));
                                assert(final(self).spec_rosters() =~= roster_step(rs0, mv));
                                lemma_wf_update(rs0, i as int, newe.users.deep_view());
                                assert(rosters_wf(final(self).spec_rosters()));
                            }
                        },
                        None => {
                            let mut users: Vec<User> = Vec::new();
                            proof {
                                assert(users.deep_view() =~= Seq::<UserView>::empty());
                                assert(nicks_unique(users.deep_view()));
                            }
                            add_tokens(&mut users, &tokens);
                            let ghost pre_ch = self.chanlists@;
                            let ghost namev = lchan@;
                            let ghost usv = users.deep_view();
                            self.chanlists.push(ChannelRoster { name: lchan, users });
                            proof {
                                lemma_roster_idx_props(rs0, namev);
                                assert(rs0 =~= rosters_of(pre_ch));
                                assert(final(self).spec_rosters() =~= roster_step(rs0, mv));
                                lemma_wf_push(rs0, namev, usv);
                                assert(rosters_wf(final(self).spec_rosters()));
                            }
                        },
                    }
                },
                None => {
                    proof {
                        assert(final(self).spec_rosters() =~= rs0);
                    }
                },
            }
        } else {
            proof {
                assert(final(self).spec_rosters() =~= rs0);
            }
        }
    }

    /// Track a prefixed JOIN or PART: add or remove the sender.
    #[verifier::spinoff_prover]
    #[verifier::rlimit(60)]
    fn on_join_part(&mut self, message: &Message)
        requires
            old(self).wf(),
            message@.command == "JOIN"@ || message@.command == "PART"@,
        ensures
            final(self).wf(),
            final(self).spec_config() == old(self).spec_config(),
            final(self).conn_of() == old(self).conn_of(),
            final(self).spec_rosters() == roster_step(old(self).spec_rosters(), message@),
    {
        let ghost rs0 = self.spec_rosters();
        let ghost mv = message@;
        proof {
            lemma_cmds_distinct();
        }
        let is_join = str_eq(message.command.as_str(), "JOIN");
        let chan_opt: Option<&String> = first_param_of(message);
        let nick_opt: Option<String> = sender_of(message);
        match (chan_opt, nick_opt) {
            (Some(c), Some(nick)) => {
                proof {
                    assert(sender_nick(mv) == Some(nick@));
                }
                let lchan = to_lower(c.as_str());
                match self.find_chan(lchan.as_str()) {
                    Some(i) => {
                        let ghost pre_ch = self.chanlists@;
                        let entry = self.chanlists.remove(i);
                        let name = entry.name;
                        let mut users = entry.users;
                        proof {
                            assert(rs0[i as int].1 == users.deep_view());
                            assert(nicks_unique(users.deep_view()));
                        }
                        if is_join {
                            match user_pos(&users, nick.as_str()) {
                                Some(_) => {
                                    proof {
                                        assert(add_user(
                                            users.deep_view(),
                                            UserView {
                                                nickname: nick@,
                                                level: AccessLevel::Member,
                                            },
                                        ) == users.deep_view());
                                    }
                                },
                                None => {
                                    let u2 = User::new(nick.as_str());
                                    proof {
                                        crate::user::lemma_strip_idempotent(mv.prefix->Some_0
                                            .subrange(
                                            0,
                                            find_idx(mv.prefix->Some_0, '!')->Some_0,
                                        ));
                                        assert(u2@ =~= UserView {
                                            nickname: nick@,
                                            level: AccessLevel::Member,
                                        });
                                        lemma_add_user_once(users.deep_view(), u2@);
                                    }
                                    push_user(&mut users, u2);
                                },
                            }
                        } else {
                            match user_pos(&users, nick.as_str()) {
                                Some(j) => {
                                    let ghost pre_us = users@;
                                    proof {
                                        lemma_remove_user_gone(users.deep_view(), nick@);
                                    }
                                    users.remove(j);
                                    proof {
                                        crate::util::lemma_deep_remove(pre_us, j as int);
                                        assert(users.deep_view() =~= crate::util::deep_of(
                                            pre_us.remove(j as int),
                                        ));
                                        assert(users.deep_view() =~= remove_user(
                                            crate::util::deep_of(pre_us),
                                            nick@,
                                        ));
                                    }
                                },
                                None => {
                                    proof {
                                        assert(remove_user(users.deep_view(), nick@)
                                            == users.deep_view());
                                    }
                                },
                            }
                        }
                        let newe = ChannelRoster { name, users };
                        self.chanlists.insert(i, newe);
                        proof {
                            assert(self.chanlists@.len() == pre_ch.len());
                            assert(forall|k: int|
                                0 <= k < pre_ch.len() && k != i ==> #[trigger] self.chanlists@[k]
                                    == pre_ch[k]);
                            lemma_rosters_update(pre_ch, self.chanlists@, i as int);
                            assert(rs0 =~= rosters_of(pre_ch));
                            assert(final(self).spec_rosters() =~= roster_step(rs0, mv));
                        }
                    },
                    None => {
                        proof {
                            assert(final(self).spec_rosters() =~= rs0);
                        }
                    },
                }
            },
            _ => {
                proof {
                    assert(final(self).spec_rosters() =~= rs0);
                }
            },
        }
    }

    /// Track a QUIT: drop the sender from every roster.
    #[verifier::spinoff_prover]
    #[verifier::rlimit(60)]
    fn on_quit(&mut self, message: &Message)
        requires
            old(self).wf(),
            message@.command == "QUIT"@,
        ensures
            final(self).wf(),
            final(self).spec_config() == old(self).spec_config(),
            final(self).conn_of() == old(self).conn_of(),
            final(self).spec_rosters() == roster_step(old(self).spec_rosters(), message@),
    {
        proof {
            lemma_cmds_distinct();
        }
        let ghost rs0 = self.spec_rosters();
        let ghost mv = message@;
        let nick_opt: Option<String> = sender_of(message);
        match nick_opt {
            Some(nick) => {
                proof {
                    assert(sender_nick(mv) == Some(nick@));
                }
                self.remove_everywhere(nick.as_str());
                proof {
                    assert(final(self).spec_rosters() =~= roster_step(rs0, mv));
                }
            },
            None => {
                proof {
                    assert(final(self).spec_rosters() =~= rs0);
                }
            },
        }
    }

    /// Track a KICK: drop the target from the channel's roster.
    #[verifier::spinoff_prover]
    #[verifier::rlimit(60)]
    fn on_kick(&mut self, message: &Message)
        requires
            old(self).wf(),
            message@.command == "KICK"@,
        ensures
            final(self).wf(),
            final(self).spec_config() == old(self).spec_config(),
            final(self).conn_of() == old(self).conn_of(),
            final(self).spec_rosters() == roster_step(old(self).spec_rosters(), message@),
    {
        let ghost rs0 = self.spec_rosters();
        let ghost mv = message@;
        proof {
            lemma_cmds_distinct();
        }
        if message.args.len() >= 2 {
            proof {
                assert(mv.args[0] == message.args@[0]@);
                assert(mv.args[1] == message.args@[1]@);
            }
            let lchan = to_lower(message.args[0].as_str());
            let target = User::new(message.args[1].as_str());
            match self.find_chan(lchan.as_str()) {
                Some(i) => {
                    let ghost pre_ch = self.chanlists@;
                    let entry = self.chanlists.remove(i);
                    let name = entry.name;
                    let mut users = entry.users;
                    proof {
                        assert(rs0[i as int].1 == users.deep_view());
                        assert(nicks_unique(users.deep_view()));
                    }
                    match user_pos(&users, target.get_nickname()) {
                        Some(j) => {
                            let ghost pre_us = users@;
                            proof {
                                lemma_remove_user_gone(
                                    users.deep_view(),
                                    strip_sigils(mv.args[1]),
                                );
                            }
                            users.remove(j);
                            proof {
                                crate::util::lemma_deep_remove(pre_us, j as int);
                                assert(users.deep_view() =~= crate::util::deep_of(
                                    pre_us.remove(j as int),
                                ));
                                assert(users.deep_view() =~= remove_user(
                                    crate::util::deep_of(pre_us),
                                    strip_sigils(mv.args[1]),
                                ));
                            }
                        },
                        None => {
                            proof {
                                assert(remove_user(
                                    users.deep_view(),
                                    strip_sigils(mv.args[1]),
                                ) == users.deep_view());
                            }
                        },
                    }
                    let newe = ChannelRoster { name, users };
                    self.chanlists.insert(i, newe);
                    proof {
                        assert(self.chanlists@.len() == pre_ch.len());
                        assert(forall|k: int|
                            0 <= k < pre_ch.len() && k != i ==> #[trigger] self.chanlists@[k]
                                == pre_ch[k]);
                        lemma_rosters_update(pre_ch, self.chanlists@, i as int);
                        assert(rs0 =~= rosters_of(pre_ch));
                        assert(final(self).spec_rosters() =~= roster_step(rs0, mv));
                        lemma_wf_update(rs0, i as int, newe.users.deep_view());
                        assert(rosters_wf(final(self).spec_rosters()));
                    }
                },
                None => {
                    proof {
                        assert(final(self).spec_rosters() =~= rs0);
                    }
                },
            }
        } else {
            proof {
                assert(final(self).spec_rosters() =~= rs0);
            }
        }
    }

    /// Track a channel MODE: adjust the target user's access level.
    #[verifier::spinoff_prover]
    #[verifier::rlimit(60)]
    fn on_mode(&mut self, message: &Message)
        requires
            old(self).wf(),
            message@.command == "MODE"@,
        ensures
            final(self).wf(),
            final(self).spec_config() == old(self).spec_config(),
            final(self).conn_of() == old(self).conn_of(),
            final(self).spec_rosters() == roster_step(old(self).spec_rosters(), message@),
    {
        let ghost rs0 = self.spec_rosters();
        let ghost mv = message@;
        proof {
            lemma_cmds_distinct();
        }
        if message.args.len() == 3 {
            proof {
                assert(mv.args[0] == message.args@[0]@);
                assert(mv.args[1] == message.args@[1]@);
                assert(mv.args[2] == message.args@[2]@);
            }
            let lchan = to_lower(message.args[0].as_str());
            let target = User::new(message.args[2].as_str());
            match self.find_chan(lchan.as_str()) {
                Some(i) => {
                    let ghost pre_ch = self.chanlists@;
                    let entry = self.chanlists.remove(i);
                    let name = entry.name;
                    let mut users = entry.users;
                    proof {
                        assert(rs0[i as int].1 == users.deep_view());
                        assert(nicks_unique(users.deep_view()));
                    }
                    match user_pos(&users, target.get_nickname()) {
                        Some(j) => {
                            let ghost pre_us = users@;
                            let ghost pre_deep = users.deep_view();
                            let mut u = users.remove(j);
                            u.update_access_level(message.args[1].as_str());
                            let ghost uv = u@;
                            let ghost mid = users@;
                            users.insert(j, u);
                            proof {
                                crate::util::lemma_deep_remove(pre_us, j as int);
                                crate::util::lemma_deep_insert(mid, j as int, u);
                                assert(users.deep_view() =~= crate::util::deep_of(
                                    mid.insert(j as int, u),
                                ));
                                assert(crate::util::deep_of(mid) =~= pre_deep.remove(j as int));
                                assert(users.deep_view() =~= pre_deep.remove(j as int).insert(
                                    j as int,
                                    uv,
                                ));
                                assert(users.deep_view() =~= update_user(
                                    pre_deep,
                                    strip_sigils(mv.args[2]),
                                    mv.args[1],
                                ));
                                lemma_update_user_nicks(
                                    pre_deep,
                                    strip_sigils(mv.args[2]),
                                    mv.args[1],
                                );
                            }
                        },
                        None => {
                            proof {
                                assert(update_user(
                                    users.deep_view(),
                                    strip_sigils(mv.args[2]),
                                    mv.args[1],
                                ) == users.deep_view());
                            }
                        },
                    }
                    let newe = ChannelRoster { name, users };
                    self.chanlists.insert(i, newe);
                    proof {
                        assert(self.chanlists@.len() == pre_ch.len());
                        assert(forall|k: int|
                            0 <= k < pre_ch.len() && k != i ==> #[trigger] self.chanlists@[k]
                                == pre_ch[k]);
                        lemma_rosters_update(pre_ch, self.chanlists@, i as int);
                        assert(rs0 =~= rosters_of(pre_ch));
                        assert(final(self).spec_rosters() =~= roster_step(rs0, mv));
                        lemma_wf_update(rs0, i as int, newe.users.deep_view());
                        assert(rosters_wf(final(self).spec_rosters()));
                    }
                },
                None => {
                    proof {
                        assert(final(self).spec_rosters() =~= rs0);
                    }
                },
            }
        } else {
            proof {
                assert(final(self).spec_rosters() =~= rs0);
            }
        }
    }

    /// Track a NICK: the sender carries its new nickname into every
    /// roster that holds it, keeping the access level; a taken nickname
    /// leaves the roster unchanged.
    #[verifier::spinoff_prover]
    #[verifier::rlimit(60)]
    fn on_nick(&mut self, message: &Message)
        requires
            old(self).wf(),
            message@.command == "NICK"@,
        ensures
            final(self).wf(),
            final(self).spec_config() == old(self).spec_config(),
            final(self).conn_of() == old(self).conn_of(),
            final(self).spec_rosters() == roster_step(old(self).spec_rosters(), message@),
    {
        proof {
            lemma_cmds_distinct();
        }
        let ghost rs0 = self.spec_rosters();
        let ghost mv = message@;
        let raw_opt: Option<&String> = first_param_of(message);
        let nick_opt: Option<String> = sender_of(message);
        match (raw_opt, nick_opt) {
            (Some(raw), Some(from)) => {
                proof {
                    assert(sender_nick(mv) == Some(from@));
                }
                self.rename_everywhere(from.as_str(), raw.as_str());
                proof {
                    assert(final(self).spec_rosters() =~= roster_step(rs0, mv));
                }
            },
            _ => {
                proof {
                    assert(final(self).spec_rosters() =~= rs0);
                    assert(roster_step(rs0, mv) == rs0);
                }
            },
        }
    }

    /// Rename one bare nickname in every roster, as a NICK does.
    fn rename_everywhere(&mut self, from: &str, to_raw: &str)
        requires
            old(self).wf(),
            rosters_wf(old(self).spec_rosters()),
        ensures
            final(self).wf(),
            final(self).spec_config() == old(self).spec_config(),
            final(self).conn_of() == old(self).conn_of(),
            final(self).spec_rosters() =~= Seq::new(
                old(self).spec_rosters().len(),
                |i: int|
                    (
                        old(self).spec_rosters()[i].0,
                        rename_user(
                            old(self).spec_rosters()[i].1,
                            from@,
                            strip_sigils(to_raw@),
                        ),
                    ),
            ),
    {
        let ghost rs0 = self.spec_rosters();
        let probe = User::new(to_raw);
        let to_bare = probe.get_nickname();
        let n: usize = self.chanlists.len();
        let mut idx: usize = 0;
        while idx < n
            invariant
                0 <= idx <= n,
                n == self.chanlists@.len(),
                rs0.len() == n,
                to_bare@ == strip_sigils(to_raw@),
                self.spec_config() == old(self).spec_config(),
                self.conn_of() == old(self).conn_of(),
                rosters_wf(self.spec_rosters()),
                self.spec_rosters().len() == n,
                forall|k: int| idx <= k < n ==> #[trigger] self.spec_rosters()[k] == rs0[k],
                forall|k: int|
                    0 <= k < idx ==> #[trigger] self.spec_rosters()[k] == (
                        rs0[k].0,
                        rename_user(rs0[k].1, from@, strip_sigils(to_raw@)),
                    ),
            decreases n - idx,
        {
            let ghost pre_ch = self.chanlists@;
            let ghost pre_rs = self.spec_rosters();
            let entry = self.chanlists.remove(idx);
            let name = entry.name;
            let mut users = entry.users;
            proof {
                assert(pre_rs[idx as int].1 == users.deep_view());
                assert(nicks_unique(users.deep_view()));
            }
            match user_pos(&users, from) {
                Some(j) => {
                    match user_pos(&users, to_bare) {
                        Some(_) => {
                            proof {
                                assert(rename_user(
                                    users.deep_view(),
                                    from@,
                                    strip_sigils(to_raw@),
                                ) == users.deep_view());
                            }
                        },
                        None => {
                            let ghost pre_us = users@;
                            let ghost pre_deep = users.deep_view();
                            proof {
                                lemma_rename_unique(
                                    users.deep_view(),
                                    from@,
                                    strip_sigils(to_raw@),
                                );
                            }
                            let u = users.remove(j);
                            let u2 = u.renamed(to_raw);
                            let ghost uv = u2@;
                            let ghost mid = users@;
                            users.insert(j, u2);
                            proof {
                                crate::util::lemma_deep_remove(pre_us, j as int);
                                crate::util::lemma_deep_insert(mid, j as int, u2);
                                assert(users.deep_view() =~= crate::util::deep_of(
                                    mid.insert(j as int, u2),
                                ));
                                assert(crate::util::deep_of(mid) =~= pre_deep.remove(j as int));
                                assert(users.deep_view() =~= pre_deep.remove(j as int).insert(
                                    j as int,
                                    uv,
                                ));
                                assert(users.deep_view() =~= rename_user(
                                    pre_deep,
                                    from@,
                                    strip_sigils(to_raw@),
                                ));
                            }
                        },
                    }
                },
                None => {
                    proof {
                        assert(rename_user(users.deep_view(), from@, strip_sigils(to_raw@))
                            == users.deep_view());
                    }
                },
            }
            let newe = ChannelRoster { name, users };
            self.chanlists.insert(idx, newe);
            proof {
                assert(self.chanlists@.len() == pre_ch.len());
                assert(forall|k: int|
                    0 <= k < pre_ch.len() && k != idx ==> #[trigger] self.chanlists@[k]
                        == pre_ch[k]);
                lemma_rosters_update(pre_ch, self.chanlists@, idx as int);
                assert(pre_rs =~= rosters_of(pre_ch));
                assert(self.spec_rosters() =~= rosters_of(self.chanlists@));
            }
            idx = idx + 1;
        }
    }

    /// Pull the next inbound message: frame, parse, track, hand it on.
    /// A line that does not parse is consumed and skipped; it never ends
    /// the stream.
    pub fn next_message(&mut self) -> (r: Result<Option<Message>, ProtocolError>)
        requires
            old(self).wf(),
        ensures
            final(self).wf(),
            final(self).spec_config() == old(self).spec_config(),
            final(self).conn_of().same_kind(&old(self).conn_of()),
            final(self).conn_of().transport_of().spec_label() == old(self).conn_of().transport_of().spec_label(),
            old(self).spec_out_log().is_prefix_of(final(self).spec_out_log()),
            ({
                let p = spec_pump(
                    old(self).conn_of().transport_of().spec_label(),
                    old(self).conn_of().transport_of().spec_read_buf(),
                );
                final(self).conn_of().transport_of().spec_read_buf() == p.0 && match p.1 {
                    Some(v) => final(self).spec_rosters() == roster_step(
                        old(self).spec_rosters(),
                        v,
                    ) && match r {
                        Ok(Some(m)) => m@ == v && final(self).spec_out_log() == old(self).spec_out_log() + auto_responses(old(self).spec_config(), v),
                        Ok(None) => false,
                        Err(ProtocolError::ConnectionClosed) => old(self).spec_closed(),
                        Err(ProtocolError::FloodWait) => !old(self).spec_closed() && final(self).spec_tokens() == 0,
                        Err(ProtocolError::CodecFailed { codec, data }) => codec@ == old(self).spec_label() && (exists|k: int|
                            0 <= k < auto_responses(old(self).spec_config(), v).len() && data@
                                == spec_serialize(
                                #[trigger] auto_responses(old(self).spec_config(), v)[k],
                            )),
                        Err(_) => false,
                    },
                    None => r == Ok::<Option<Message>, ProtocolError>(None) && final(self).spec_rosters() == old(self).spec_rosters() && final(self).spec_out_log()
                        == old(self).spec_out_log(),
                }
            }),
    {
        let ghost label = self.conn_of().transport_of().spec_label();
        let ghost buf0 = self.conn_of().transport_of().spec_read_buf();
        let ghost rs0 = self.spec_rosters();
        let ghost log0 = self.spec_out_log();
        loop
            invariant
                self.wf(),
                self.spec_config() == old(self).spec_config(),
                self.conn_of().same_kind(&old(self).conn_of()),
                self.conn_of().transport_of().spec_label() == label,
                self.spec_closed() == old(self).spec_closed(),
                self.spec_tokens() == old(self).spec_tokens(),
                self.spec_rosters() == rs0,
                self.spec_out_log() == log0,
                rs0 == old(self).spec_rosters(),
                log0 == old(self).spec_out_log(),
                label == old(self).conn_of().transport_of().spec_label(),
                spec_pump(label, buf0) == spec_pump(
                    label,
                    self.conn_of().transport_of().spec_read_buf(),
                ),
                buf0 == old(self).conn_of().transport_of().spec_read_buf(),
            decreases self.conn_of().transport_of().spec_read_buf().len(),
        {
            let ghost cur = self.conn_of().transport_of().spec_read_buf();
            let step = self.conn.next_message();
            proof {
                crate::util::lemma_find_idx(cur, LF);
            }
            match step {
                Ok(None) => {
                    proof {
                        assert(spec_pump(label, cur) == (cur, None::<MessageView>));
                        assert(log0.subrange(0, log0.len() as int) =~= log0);
                    }
                    return Ok(None);
                },
                Ok(Some(m)) => {
                    proof {
                        assert(spec_pump(label, cur).1 == Some(m@));
                    }
                    let hr = self.handle_message(&m);
                    match hr {
                        Ok(()) => {
                            return Ok(Some(m));
                        },
                        Err(e) => {
                            return Err(e);
                        },
                    }
                },
                Err(_) => {
                },
            }
        }
    }

    /// Hand bytes read from the wire to the framer.
    pub fn feed(&mut self, bytes: &[u8])
        requires
            old(self).wf(),
        ensures
            final(self).wf(),
            final(self).spec_config() == old(self).spec_config(),
            final(self).spec_rosters() == old(self).spec_rosters(),
            final(self).conn_of().same_kind(&old(self).conn_of()),
            final(self).conn_of().transport_of().spec_read_buf() == old(self).conn_of().transport_of().spec_read_buf() + bytes@,
            final(self).spec_out_log() == old(self).spec_out_log(),
    {
        self.conn.feed(bytes);
        proof {
            assert(final(self).spec_rosters() =~= old(self).spec_rosters());
        }
    }

    /// Drain the outbound bytes for a pump to write to the wire.
    pub fn take_written(&mut self) -> (r: Vec<u8>)
        requires
            old(self).wf(),
        ensures
            final(self).wf(),
            final(self).spec_config() == old(self).spec_config(),
            final(self).spec_rosters() == old(self).spec_rosters(),
            final(self).conn_of().same_kind(&old(self).conn_of()),
            r@ == old(self).conn_of().transport_of().spec_written(),
            final(self).conn_of().transport_of().spec_written() == Seq::<u8>::empty(),
            final(self).spec_out_log() == old(self).spec_out_log(),
    {
        let r = self.conn.take_written();
        proof {
            assert(final(self).spec_rosters() =~= old(self).spec_rosters());
        }
        r
    }

    /// Start a new burst window for the flood limiter.
    pub fn refill_window(&mut self)
        requires
            old(self).wf(),
        ensures
            final(self).wf(),
            final(self).spec_config() == old(self).spec_config(),
            final(self).spec_rosters() == old(self).spec_rosters(),
            final(self).conn_of().same_kind(&old(self).conn_of()),
            final(self).spec_out_log() == old(self).spec_out_log(),
    {
        self.conn.refill_window();
        proof {
            assert(final(self).spec_rosters() =~= old(self).spec_rosters());
        }
    }

    /// The registration nickname to try after `rejections` 433 replies:
    /// the next configured alternative, in order, or `NoUsableNick` once
    /// they are exhausted. A caller drives this from each 433 seen before
    /// registration completes.
    pub fn alt_nick_after(&self, rejections: usize) -> (r: Result<&String, ProtocolError>)
        ensures
            match r {
                Ok(n) => rejections < self.spec_config().alt_nicks@.len() && n@
                    == self.spec_config().alt_nicks@[rejections as int]@,
                Err(ProtocolError::NoUsableNick) => rejections >= self.spec_config().alt_nicks@.len(),
                Err(_) => false,
            },
    {
        if rejections < self.config.alt_nicks.len() {
            Ok(&self.config.alt_nicks[rejections])
        } else {
            Err(ProtocolError::NoUsableNick)
        }
    }

    /// Sends the registration handshake: `PASS` when a server password
    /// is configured, then `NICK` and `USER`. On an open connection with
    /// tokens in the flood window this succeeds and writes exactly the
    /// handshake; each failure happens only under its own condition.
    pub fn register(&mut self) -> (r: Result<(), ProtocolError>)
        requires
            old(self).wf(),
        ensures
            final(self).wf(),
            final(self).spec_config() == old(self).spec_config(),
            final(self).spec_rosters() == old(self).spec_rosters(),
            final(self).conn_of().same_kind(&old(self).conn_of()),
            final(self).spec_closed() == old(self).spec_closed(),
            old(self).spec_out_log().is_prefix_of(final(self).spec_out_log()),
            match r {
                Ok(()) => !old(self).spec_closed() && final(self).spec_out_log() == old(self).spec_out_log() + registration_msgs(old(self).spec_config()),
                Err(ProtocolError::ConnectionClosed) => old(self).spec_closed() && final(self).spec_out_log() == old(self).spec_out_log(),
                Err(ProtocolError::FloodWait) => !old(self).spec_closed() && final(self).spec_tokens() == 0,
                Err(ProtocolError::CodecFailed { codec, data }) => codec@ == old(self).spec_label() && (exists|k: int|
                    0 <= k < registration_msgs(old(self).spec_config()).len() && data@
                        == spec_serialize(
                        #[trigger] registration_msgs(old(self).spec_config())[k],
                    )),
                Err(_) => false,
            },
    {
        let ghost log0 = self.spec_out_log();
        let ghost cfg = self.spec_config();
        let ghost has_pass = cfg.server_password@.len() > 0;
        if self.config.server_password.as_str().unicode_len() > 0 {
            let mut args: Vec<String> = Vec::new();
            args.push(self.config.server_password.clone());
            proof {
                assert(args.deep_view() =~= seq![cfg.server_password@]);
            }
            let msg = plain_msg("PASS", args, None);
            let ghost mv = msg@;
            match self.conn.send(msg) {
                Ok(()) => {},
                Err(e) => {
                    proof {
                        assert(log0.subrange(0, log0.len() as int) =~= log0);
                        assert(final(self).spec_rosters() =~= old(self).spec_rosters());
                        assert(registration_msgs(cfg)[0] =~= mv);
                    }
                    return Err(e);
                },
            }
        }
        let mut nick_args: Vec<String> = Vec::new();
        nick_args.push(self.config.nickname.clone());
        proof {
            assert(nick_args.deep_view() =~= seq![cfg.nickname@]);
        }
        let nick_msg = plain_msg("NICK", nick_args, None);
        let ghost nick_v = nick_msg@;
        match self.conn.send(nick_msg) {
            Ok(()) => {},
            Err(e) => {
                proof {
                    assert(final(self).spec_out_log().subrange(0, log0.len() as int) =~= log0);
                    assert(final(self).spec_rosters() =~= old(self).spec_rosters());
                    if has_pass {
                        assert(registration_msgs(cfg)[1] =~= nick_v);
                    } else {
                        assert(registration_msgs(cfg)[0] =~= nick_v);
                    }
                }
                return Err(e);
            },
        }
        let mut user_args: Vec<String> = Vec::new();
        user_args.push(self.config.username.clone());
        user_args.push(String::from_str("0"));
        user_args.push(String::from_str("*"));
        proof {
            assert(user_args.deep_view() =~= seq![cfg.username@, "0"@, "*"@]);
        }
        let user_msg = plain_msg("USER", user_args, Some(self.config.realname.clone()));
        let ghost user_v = user_msg@;
        let r = self.conn.send(user_msg);
        proof {
            assert(final(self).spec_rosters() =~= old(self).spec_rosters());
            match r {
                Ok(()) => {
                    assert(final(self).spec_out_log() =~= log0 + registration_msgs(cfg));
                    assert(final(self).spec_out_log().subrange(0, log0.len() as int) =~= log0);
                },
                Err(_) => {
                    assert(final(self).spec_out_log().subrange(0, log0.len() as int) =~= log0);
                    if has_pass {
                        assert(registration_msgs(cfg)[2] =~= user_v);
                    } else {
                        assert(registration_msgs(cfg)[1] =~= user_v);
                    }
                },
            }
        }
        r
    }

    /// Sends a PRIVMSG to the target.
    pub fn send_privmsg(&mut self, target: &str, text: &str) -> (r: Result<(), ProtocolError>)
        requires
            old(self).wf(),
        ensures
            final(self).wf(),
            final(self).spec_config() == old(self).spec_config(),
            final(self).spec_rosters() == old(self).spec_rosters(),
            final(self).conn_of().same_kind(&old(self).conn_of()),
            send_outcome(
                *old(self),
                *final(self),
                MessageView {
                    tags: None,
                    prefix: None,
                    command: "PRIVMSG"@,
                    args: seq![target@],
                    suffix: Some(text@),
                },
                r,
            ),
    {
        let mut args: Vec<String> = Vec::new();
        args.push(String::from_str(target));
        proof {
            assert(args.deep_view() =~= seq![target@]);
        }
        let msg = plain_msg("PRIVMSG", args, Some(String::from_str(text)));
        self.send(msg)
    }

    /// Sends a NOTICE to the target.
    pub fn send_notice(&mut self, target: &str, text: &str) -> (r: Result<(), ProtocolError>)
        requires
            old(self).wf(),
        ensures
            final(self).wf(),
            final(self).spec_config() == old(self).spec_config(),
            final(self).spec_rosters() == old(self).spec_rosters(),
            final(self).conn_of().same_kind(&old(self).conn_of()),
            send_outcome(
                *old(self),
                *final(self),
                MessageView {
                    tags: None,
                    prefix: None,
                    command: "NOTICE"@,
                    args: seq![target@],
                    suffix: Some(text@),
                },
                r,
            ),
    {
        let mut args: Vec<String> = Vec::new();
        args.push(String::from_str(target));
        proof {
            assert(args.deep_view() =~= seq![target@]);
        }
        let msg = plain_msg("NOTICE", args, Some(String::from_str(text)));
        self.send(msg)
    }

    /// Joins a channel, with a key when one is given.
    pub fn send_join(&mut self, chan: &str, key: Option<&str>) -> (r: Result<(), ProtocolError>)
        requires
            old(self).wf(),
        ensures
            final(self).wf(),
            final(self).spec_config() == old(self).spec_config(),
            final(self).spec_rosters() == old(self).spec_rosters(),
            final(self).conn_of().same_kind(&old(self).conn_of()),
            send_outcome(
                *old(self),
                *final(self),
                join_of(
                    chan@,
                    match key {
                        Some(k) => Some(k@),
                        None => None,
                    },
                ),
                r,
            ),
    {
        let mut args: Vec<String> = Vec::new();
        args.push(String::from_str(chan));
        match key {
            Some(k) => {
                args.push(String::from_str(k));
                proof {
                    assert(args.deep_view() =~= seq![chan@, k@]);
                }
            },
            None => {
                proof {
                    assert(args.deep_view() =~= seq![chan@]);
                }
            },
        }
        let msg = plain_msg("JOIN", args, None);
        proof {
            assert(msg@ =~= join_of(
                chan@,
                match key {
                    Some(k) => Some(k@),
                    None => None,
                },
            ));
        }
        self.send(msg)
    }

    /// Leaves a channel, with a parting message when one is given.
    pub fn send_part(&mut self, chan: &str, text: Option<&str>) -> (r: Result<(), ProtocolError>)
        requires
            old(self).wf(),
        ensures
            final(self).wf(),
            final(self).spec_config() == old(self).spec_config(),
            final(self).spec_rosters() == old(self).spec_rosters(),
            final(self).conn_of().same_kind(&old(self).conn_of()),
            send_outcome(
                *old(self),
                *final(self),
                MessageView {
                    tags: None,
                    prefix: None,
                    command: "PART"@,
                    args: seq![chan@],
                    suffix: match text {
                        Some(t) => Some(t@),
                        None => None,
                    },
                },
                r,
            ),
    {
        let mut args: Vec<String> = Vec::new();
        args.push(String::from_str(chan));
        proof {
            assert(args.deep_view() =~= seq![chan@]);
        }
        let suffix: Option<String> = match text {
            Some(t) => Some(String::from_str(t)),
            None => None,
        };
        let msg = plain_msg("PART", args, suffix);
        self.send(msg)
    }

    /// Identifies with NickServ, when a nick password is configured.
    pub fn identify(&mut self) -> (r: Result<(), ProtocolError>)
        requires
            old(self).wf(),
        ensures
            final(self).wf(),
            final(self).spec_config() == old(self).spec_config(),
            final(self).spec_rosters() == old(self).spec_rosters(),
            final(self).conn_of().same_kind(&old(self).conn_of()),
            old(self).spec_config().nick_password@.len() == 0 ==> r is Ok && final(self).spec_out_log() == old(self).spec_out_log(),
            old(self).spec_config().nick_password@.len() > 0 ==> send_outcome(
                *old(self),
                *final(self),
                MessageView {
                    tags: None,
                    prefix: None,
                    command: "PRIVMSG"@,
                    args: seq!["NickServ"@],
                    suffix: Some("IDENTIFY "@ + old(self).spec_config().nick_password@),
                },
                r,
            ),
    {
        if self.config.nick_password.as_str().unicode_len() == 0 {
            return Ok(());
        }
        let mut text = String::from_str("IDENTIFY ");
        text.append(self.config.nick_password.as_str());
        let mut args: Vec<String> = Vec::new();
        args.push(String::from_str("NickServ"));
        proof {
            assert(args.deep_view() =~= seq!["NickServ"@]);
        }
        let msg = plain_msg("PRIVMSG", args, Some(text));
        self.send(msg)
    }

    /// Remove one bare nickname from every roster, as a QUIT does.
    fn remove_everywhere(&mut self, nick: &str)
        requires
            old(self).wf(),
            rosters_wf(old(self).spec_rosters()),
        ensures
            final(self).wf(),
            final(self).spec_config() == old(self).spec_config(),
            final(self).conn_of() == old(self).conn_of(),
            final(self).spec_rosters() =~= Seq::new(
                old(self).spec_rosters().len(),
                |i: int|
                    (
                        old(self).spec_rosters()[i].0,
                        remove_user(old(self).spec_rosters()[i].1, nick@),
                    ),
            ),
    {
        let ghost rs0 = self.spec_rosters();
        let n: usize = self.chanlists.len();
        let mut idx: usize = 0;
        while idx < n
            invariant
                0 <= idx <= n,
                n == self.chanlists@.len(),
                rs0.len() == n,
                self.spec_config() == old(self).spec_config(),
                self.conn_of() == old(self).conn_of(),
                rosters_wf(self.spec_rosters()),
                self.spec_rosters().len() == n,
                forall|k: int|
                    idx <= k < n ==> #[trigger] self.spec_rosters()[k] == rs0[k],
                forall|k: int|
                    0 <= k < idx ==> #[trigger] self.spec_rosters()[k] == (
                        rs0[k].0,
                        remove_user(rs0[k].1, nick@),
                    ),
            decreases n - idx,
        {
            let ghost pre_ch = self.chanlists@;
            let ghost pre_rs = self.spec_rosters();
            let entry = self.chanlists.remove(idx);
            let name = entry.name;
            let mut users = entry.users;
            proof {
                assert(pre_rs[idx as int].1 == users.deep_view());
                assert(nicks_unique(users.deep_view()));
            }
            match user_pos(&users, nick) {
                Some(j) => {
                    let ghost pre_us = users@;
                    proof {
                        lemma_remove_user_gone(users.deep_view(), nick@);
                    }
                    users.remove(j);
                    proof {
                        crate::util::lemma_deep_remove(pre_us, j as int);
                        assert(users.deep_view() =~= crate::util::deep_of(
                            pre_us.remove(j as int),
                        ));
                        assert(users.deep_view() =~= remove_user(
                            crate::util::deep_of(pre_us),
                            nick@,
                        ));
                    }
                },
                None => {
                    proof {
                        assert(remove_user(users.deep_view(), nick@) == users.deep_view());
                    }
                },
            }
            let newe = ChannelRoster { name, users };
            self.chanlists.insert(idx, newe);
            proof {
                assert(self.chanlists@.len() == pre_ch.len());
                assert(forall|k: int|
                    0 <= k < pre_ch.len() && k != idx ==> #[trigger] self.chanlists@[k]
                        == pre_ch[k]);
                lemma_rosters_update(pre_ch, self.chanlists@, idx as int);
                assert(pre_rs =~= rosters_of(pre_ch));
                assert(self.spec_rosters() =~= rosters_of(self.chanlists@));
            }
            idx = idx + 1;
        }
    }

    /// Send the configured joins from index `i` on, in order. Each
    /// failure happens only under its own condition; on an open
    /// connection with tokens left, every join is written.
    fn send_joins(&mut self, i: usize) -> (r: Result<(), ProtocolError>)
        requires
            old(self).wf(),
            i <= old(self).spec_config().channels@.len(),
        ensures
            final(self).wf(),
            final(self).spec_config() == old(self).spec_config(),
            final(self).spec_rosters() == old(self).spec_rosters(),
            final(self).conn_of().same_kind(&old(self).conn_of()),
            final(self).conn_of().transport_of().spec_label() == old(self).conn_of().transport_of().spec_label(),
            final(self).conn_of().transport_of().spec_read_buf() == old(self).conn_of().transport_of().spec_read_buf(),
            final(self).spec_closed() == old(self).spec_closed(),
            old(self).spec_out_log().is_prefix_of(final(self).spec_out_log()),
            match r {
                Ok(()) => final(self).spec_out_log() == old(self).spec_out_log() + join_msgs(
                    old(self).spec_channels().skip(i as int),
                    old(self).spec_config().spec_keys(),
                ),
                Err(ProtocolError::ConnectionClosed) => old(self).spec_closed()
                    && final(self).spec_out_log() == old(self).spec_out_log(),
                Err(ProtocolError::FloodWait) => !old(self).spec_closed()
                    && final(self).spec_tokens() == 0,
                Err(ProtocolError::CodecFailed { codec, data }) => codec@
                    == old(self).spec_label() && (exists|k: int|
                    0 <= k < join_msgs(
                        old(self).spec_channels().skip(i as int),
                        old(self).spec_config().spec_keys(),
                    ).len() && data@ == spec_serialize(
                        #[trigger] join_msgs(
                            old(self).spec_channels().skip(i as int),
                            old(self).spec_config().spec_keys(),
                        )[k],
                    )),
                Err(_) => false,
            },
        decreases self.spec_config().channels@.len() - i,
    {
        proof {
            reveal_strlit("JOIN");
        }
        let ghost log0 = self.spec_out_log();
        let ghost keys = old(self).spec_config().spec_keys();
        let ghost rest = old(self).spec_channels().skip(i as int);
        let n: usize = self.config.channels.len();
        if i >= n {
            proof {
                assert(rest =~= Seq::<Seq<char>>::empty());
                assert(log0 + Seq::<MessageView>::empty() =~= log0);
                assert(log0.subrange(0, log0.len() as int) =~= log0);
                assert(final(self).spec_rosters() =~= old(self).spec_rosters());
            }
            Ok(())
        } else {
            let chan = self.config.channels[i].clone();
            let ghost chv = chan@;
            let key_opt: Option<String> = match self.config.key_for(chan.as_str()) {
                Some(k) => Some(k.clone()),
                None => None,
            };
            let msg = match key_opt {
                Some(k) => {
                    let mut a: Vec<String> = Vec::new();
                    a.push(chan);
                    a.push(k);
                    proof {
                        assert(a.deep_view() =~= seq![chv, k@]);
                    }
                    plain_msg("JOIN", a, None)
                },
                None => {
                    let mut a: Vec<String> = Vec::new();
                    a.push(chan);
                    proof {
                        assert(a.deep_view() =~= seq![chv]);
                    }
                    plain_msg("JOIN", a, None)
                },
            };
            proof {
                assert(old(self).spec_channels()[i as int] == chv);
                assert(rest[0] == chv);
                assert(msg@ =~= join_of(chv, key_lookup(keys, chv)));
                assert(rest.skip(1) =~= old(self).spec_channels().skip(i as int + 1));
                assert(join_msgs(rest, keys) == seq![join_of(chv, key_lookup(keys, chv))]
                    + join_msgs(rest.skip(1), keys));
            }
            let ghost head_v = msg@;
            match self.conn.send(msg) {
                Ok(()) => {
                    let ghost mid_log = self.spec_out_log();
                    let r2 = self.send_joins(i + 1);
                    proof {
                        match &r2 {
                            Ok(()) => {
                                assert(final(self).spec_out_log() =~= log0 + join_msgs(
                                    rest,
                                    keys,
                                ));
                                assert(final(self).spec_out_log().subrange(0, log0.len() as int)
                                    =~= log0);
                            },
                            Err(e2) => {
                                assert(mid_log.subrange(0, log0.len() as int) =~= log0);
                                assert(final(self).spec_out_log().subrange(0, log0.len() as int)
                                    =~= log0);
                                match e2 {
                                    ProtocolError::CodecFailed { codec, data } => {
                                        let tail = join_msgs(rest.skip(1), keys);
                                        let k2 = choose|k: int|
                                            0 <= k < tail.len() && data@ == spec_serialize(
                                                #[trigger] tail[k],
                                            );
                                        assert(join_msgs(rest, keys)[k2 + 1] == tail[k2]);
                                    },
                                    _ => {},
                                }
                            },
                        }
                    }
                    r2
                },
                Err(e) => {
                    proof {
                        assert(final(self).spec_out_log() == log0);
                        assert(log0.subrange(0, log0.len() as int) =~= log0);
                        assert(final(self).spec_rosters() =~= old(self).spec_rosters());
                        match &e {
                            ProtocolError::CodecFailed { codec, data } => {
                                assert(join_msgs(rest, keys)[0] == head_v);
                            },
                            _ => {},
                        }
                    }
                    Err(e)
                },
            }
        }
    }
}

impl Server for IrcServer {
    open spec fn inv(&self) -> bool {
        self.wf()
    }

    fn config(&self) -> &Config {
        IrcServer::config(self)
    }

    fn send(&mut self, cmd: Message) -> Result<(), ProtocolError> {
        IrcServer::send(self, cmd)
    }

    fn list_users(&self, chan: &str) -> Option<Vec<User>> {
        IrcServer::list_users(self, chan)
    }
}

/// The sender's bare nickname, when the prefix has the user form.
fn sender_of(message: &Message) -> (r: Option<String>)
    ensures
        match r {
            Some(nk) => sender_nick(message@) == Some(nk@),
            None => sender_nick(message@) is None,
        },
{
    match &message.prefix {
        Some(p) => match crate::util::find_ch(p.as_str(), '!') {
            Some(ix) => {
                proof {
                    lemma_find_idx(p@, '!');
                }
                let u = User::new(p.as_str().substring_char(0, ix));
                Some(String::from_str(u.get_nickname()))
            },
            None => None,
        },
        None => None,
    }
}

/// A message's first parameter: the trailing part, else the first
/// middle argument.
fn first_param_of(message: &Message) -> (r: Option<&String>)
    ensures
        match r {
            Some(c) => (match message@.suffix {
                Some(sx) => c@ == sx,
                None => message@.args.len() > 0 && c@ == message@.args[0],
            }),
            None => message@.suffix is None && message@.args.len() == 0,
        },
{
    match &message.suffix {
        Some(s) => Some(s),
        None => {
            if message.args.len() > 0 {
                proof {
                    assert(message@.args[0] == message.args@[0]@);
                }
                Some(&message.args[0])
            } else {
                None
            }
        },
    }
}

/// Tokens of a whitespace-separated list, empty tokens dropped.
fn split_tokens(s: &str) -> (r: Vec<String>)
    ensures
        r.deep_view() == split_sp(s@),
    decreases s@.len(),
{
    let n: usize = s.unicode_len();
    match crate::util::find_ch(s, ' ') {
        None => {
            if n > 0 {
                let mut v: Vec<String> = Vec::new();
                v.push(String::from_str(s));
                proof {
                    assert(v.deep_view() =~= seq![s@]);
                }
                v
            } else {
                let v: Vec<String> = Vec::new();
                proof {
                    assert(v.deep_view() =~= Seq::<Seq<char>>::empty());
                    assert(split_sp(s@) =~= Seq::<Seq<char>>::empty());
                }
                v
            }
        },
        Some(i) => {
            proof {
                lemma_find_idx(s@, ' ');
            }
            let rest = split_tokens(s.substring_char(i + 1, n));
            proof {
                assert(s@.subrange(i + 1 as int, n as int) =~= s@.skip(i + 1));
            }
            if i > 0 {
                let ghost restv = rest.deep_view();
                let ghost prev = rest@;
                let mut v = rest;
                let head = String::from_str(s.substring_char(0, i));
                v.insert(0, head);
                proof {
                    crate::util::lemma_deep_insert(prev, 0, head);
                    assert(restv =~= crate::util::deep_of(prev));
                    assert(v.deep_view() =~= crate::util::deep_of(prev.insert(0, head)));
                    assert(v.deep_view() =~= seq![s@.subrange(0, i as int)] + restv);
                }
                v
            } else {
                proof {
                    assert(seq![] + split_sp(s@.skip(i + 1)) =~= split_sp(s@.skip(i + 1)));
                }
                rest
            }
        },
    }
}

/// Index of the user with this bare nickname in a roster.
fn user_pos(us: &Vec<User>, nick: &str) -> (r: Option<usize>)
    ensures
        match r {
            Some(i) => user_idx(us.deep_view(), nick@) == Some(i as int) && i
                < us.deep_view().len(),
            None => user_idx(us.deep_view(), nick@) is None,
        },
{
    let ghost uv = us.deep_view();
    let n: usize = us.len();
    let mut i: usize = 0;
    proof {
        assert(uv.skip(0) =~= uv);
    }
    while i < n
        invariant
            0 <= i <= n,
            n == us@.len(),
            n == uv.len(),
            uv == us.deep_view(),
            user_idx(uv, nick@) == (match user_idx(uv.skip(i as int), nick@) {
                Some(k) => Some(k + i),
                None => None::<int>,
            }),
        decreases n - i,
    {
        proof {
            assert(uv.skip(i as int)[0] == uv[i as int]);
            assert(uv.skip(i as int).skip(1) =~= uv.skip(i + 1));
            lemma_idx_props(uv.skip(i as int), nick@);
        }
        if str_eq(us[i].get_nickname(), nick) {
            return Some(i);
        }
        i = i + 1;
    }
    None
}

} // verus!
