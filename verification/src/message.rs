//! IRC messages: the parsed form of one protocol line, its serialization,
//! and the proof that parsing a serialized message gives it back.
//!
//! A line is, per RFC 1459 extended with message tags:
//! `["@" tags SPACE] [":" prefix SPACE] command {SPACE middle} [SPACE ":" trailing] CRLF`

use vstd::prelude::*;
use crate::util::{find_idx, lemma_find_idx, lemma_find_idx_at, lemma_find_idx_none, find_ch};
use crate::error::ProtocolError;

verus! {

/// Mathematical form of a message tag.
#[verifier::ext_equal]
pub ghost struct TagView {
    pub key: Seq<char>,
    pub value: Option<Seq<char>>,
}

/// Mathematical form of a message.
#[verifier::ext_equal]
pub ghost struct MessageView {
    pub tags: Option<Seq<TagView>>,
    pub prefix: Option<Seq<char>>,
    pub command: Seq<char>,
    pub args: Seq<Seq<char>>,
    pub suffix: Option<Seq<char>>,
}

/// One IRCv3 message tag: a key with an optional value.
#[derive(Debug, Clone, PartialEq, Eq)]
pub struct Tag {
    pub key: String,
    pub value: Option<String>,
}

/// A parsed IRC line: optional tags, optional prefix, a command, up to 14
/// middle arguments, and an optional trailing argument.
#[derive(Debug, Clone, PartialEq, Eq)]
pub struct Message {
    pub tags: Option<Vec<Tag>>,
    pub prefix: Option<String>,
    pub command: String,
    pub args: Vec<String>,
    pub suffix: Option<String>,
}

impl View for Tag {
    type V = TagView;

    open spec fn view(&self) -> TagView {
        TagView {
            key: self.key@,
            value: match self.value {
                Some(v) => Some(v@),
                None => None,
            },
        }
    }
}

impl DeepView for Tag {
    type V = TagView;

    open spec fn deep_view(&self) -> TagView {
        self@
    }
}

impl View for Message {
    type V = MessageView;

    open spec fn view(&self) -> MessageView {
        MessageView {
            tags: match self.tags {
                Some(ts) => Some(ts.deep_view()),
                None => None,
            },
            prefix: match self.prefix {
                Some(p) => Some(p@),
                None => None,
            },
            command: self.command@,
            args: self.args.deep_view(),
            suffix: match self.suffix {
                Some(s) => Some(s@),
                None => None,
            },
        }
    }
}

impl DeepView for Message {
    type V = MessageView;

    open spec fn deep_view(&self) -> MessageView {
        self@
    }
}

// ------------------------------------------------------------------
// Well-formedness: fields that can be carried by the wire syntax.
// ------------------------------------------------------------------

/// No space, carriage return or newline anywhere in `s`.
pub open spec fn ok_chars(s: Seq<char>) -> bool {
    forall|i: int| 0 <= i < s.len() ==> s[i] != ' ' && s[i] != '\r' && s[i] != '\n'
}

/// No carriage return or newline anywhere in `s`.
pub open spec fn no_crlf(s: Seq<char>) -> bool {
    forall|i: int| 0 <= i < s.len() ==> s[i] != '\r' && s[i] != '\n'
}

/// A tag key: non-empty, and free of the separators of the tag syntax.
pub open spec fn tag_key_ok(s: Seq<char>) -> bool {
    s.len() > 0 && forall|i: int|
        0 <= i < s.len() ==> s[i] != ' ' && s[i] != '\r' && s[i] != '\n' && s[i] != ';' && s[i]
            != '=' && s[i] != '@'
}

/// A tag value: free of space and of the tag separator (it may contain `=`).
pub open spec fn tag_value_ok(s: Seq<char>) -> bool {
    forall|i: int| 0 <= i < s.len() ==> s[i] != ' ' && s[i] != '\r' && s[i] != '\n' && s[i] != ';'
}

pub open spec fn valid_tag(t: TagView) -> bool {
    tag_key_ok(t.key) && match t.value {
        Some(v) => tag_value_ok(v),
        None => true,
    }
}

/// Messages whose fields survive the wire syntax unchanged. Serialization
/// followed by parsing is the identity exactly on these.
pub open spec fn valid_message(m: MessageView) -> bool {
    &&& m.command.len() > 0
    &&& ok_chars(m.command)
    &&& m.command[0] != ':'
    &&& m.command[0] != '@'
    &&& match m.tags {
        Some(ts) => ts.len() > 0 && forall|i: int| 0 <= i < ts.len() ==> valid_tag(#[trigger] ts[i]),
        None => true,
    }
    &&& match m.prefix {
        Some(p) => ok_chars(p),
        None => true,
    }
    &&& m.args.len() <= 14
    &&& forall|i: int|
        0 <= i < m.args.len() ==> ok_chars(#[trigger] m.args[i]) && m.args[i].len() > 0
            && m.args[i][0] != ':'
    &&& match m.suffix {
        Some(s) => no_crlf(s),
        None => true,
    }
}

// ------------------------------------------------------------------
// Serialization, at the specification level.
// ------------------------------------------------------------------

pub open spec fn serialize_tag(t: TagView) -> Seq<char> {
    match t.value {
        Some(v) => t.key + seq!['='] + v,
        None => t.key,
    }
}

pub open spec fn serialize_tags(ts: Seq<TagView>) -> Seq<char>
    decreases ts.len(),
{
    if ts.len() == 0 {
        Seq::empty()
    } else if ts.len() == 1 {
        serialize_tag(ts[0])
    } else {
        serialize_tag(ts[0]) + seq![';'] + serialize_tags(ts.skip(1))
    }
}

pub open spec fn serialize_args(args: Seq<Seq<char>>) -> Seq<char>
    decreases args.len(),
{
    if args.len() == 0 {
        Seq::empty()
    } else {
        seq![' '] + args[0] + serialize_args(args.skip(1))
    }
}

pub open spec fn serialize_suffix(s: Option<Seq<char>>) -> Seq<char> {
    match s {
        Some(x) => seq![' ', ':'] + x,
        None => Seq::empty(),
    }
}

/// The serialized line without its terminator.
pub open spec fn spec_body(m: MessageView) -> Seq<char> {
    (match m.tags {
        Some(ts) => seq!['@'] + serialize_tags(ts) + seq![' '],
        None => Seq::empty(),
    }) + (match m.prefix {
        Some(p) => seq![':'] + p + seq![' '],
        None => Seq::empty(),
    }) + m.command + serialize_args(m.args) + serialize_suffix(m.suffix)
}

/// The full serialized line, ending in `\r\n`.
pub open spec fn spec_serialize(m: MessageView) -> Seq<char> {
    spec_body(m) + seq!['\r', '\n']
}

// ------------------------------------------------------------------
// Parsing, at the specification level.
// ------------------------------------------------------------------

/// Remove one trailing `\n`, and one `\r` just before it if present.
pub open spec fn strip_crlf(s: Seq<char>) -> Seq<char> {
    if s.len() > 0 && s[s.len() - 1] == '\n' {
        let t = s.drop_last();
        if t.len() > 0 && t[t.len() - 1] == '\r' {
            t.drop_last()
        } else {
            t
        }
    } else {
        s
    }
}

pub open spec fn parse_tag(s: Seq<char>) -> Option<TagView> {
    match find_idx(s, '=') {
        None => if s.len() > 0 {
            Some(TagView { key: s, value: None })
        } else {
            None
        },
        Some(i) => if 0 < i < s.len() {
            Some(TagView { key: s.subrange(0, i), value: Some(s.skip(i + 1)) })
        } else {
            None
        },
    }
}

pub open spec fn parse_tags(s: Seq<char>) -> Option<Seq<TagView>>
    decreases s.len(),
{
    match find_idx(s, ';') {
        None => match parse_tag(s) {
            Some(t) => Some(seq![t]),
            None => None,
        },
        Some(i) => if 0 <= i < s.len() {
            match parse_tag(s.subrange(0, i)) {
                Some(t) => match parse_tags(s.skip(i + 1)) {
                    Some(ts) => Some(seq![t] + ts),
                    None => None,
                },
                None => None,
            }
        } else {
            None
        },
    }
}

/// Parse the middle arguments and trailing part. The input is either empty
/// or begins with the space that separated it from what came before.
pub open spec fn parse_args(t: Seq<char>) -> (Seq<Seq<char>>, Option<Seq<char>>)
    decreases t.len(),
{
    if t.len() == 0 {
        (seq![], None)
    } else {
        let u = t.skip(1);
        if u.len() > 0 && u[0] == ':' {
            (seq![], Some(u.skip(1)))
        } else {
            match find_idx(u, ' ') {
                None => (seq![u], None),
                Some(i) => if 0 <= i < u.len() {
                    let r = parse_args(u.skip(i));
                    (seq![u.subrange(0, i)] + r.0, r.1)
                } else {
                    (seq![], None)
                },
            }
        }
    }
}

pub open spec fn parse_cmd(t: Seq<char>, tags: Option<Seq<TagView>>, prefix: Option<Seq<char>>) -> Option<
    MessageView,
> {
    let r = match find_idx(t, ' ') {
        None => (t, Seq::<char>::empty()),
        Some(i) => if 0 <= i < t.len() {
            (t.subrange(0, i), t.skip(i))
        } else {
            (t, Seq::<char>::empty())
        },
    };
    if r.0.len() == 0 {
        None
    } else {
        let a = parse_args(r.1);
        Some(MessageView { tags, prefix, command: r.0, args: a.0, suffix: a.1 })
    }
}

pub open spec fn parse_after_tags(t: Seq<char>, tags: Option<Seq<TagView>>) -> Option<MessageView> {
    if t.len() > 0 && t[0] == ':' {
        match find_idx(t, ' ') {
            Some(i) => if 0 <= i < t.len() {
                parse_cmd(t.skip(i + 1), tags, Some(t.subrange(1, i)))
            } else {
                None
            },
            None => None,
        }
    } else {
        parse_cmd(t, tags, None)
    }
}

/// Parse one line into a message, or nothing if the line is ill-formed.
pub open spec fn spec_parse(s: Seq<char>) -> Option<MessageView> {
    let t = strip_crlf(s);
    if t.len() > 0 && t[0] == '@' {
        match find_idx(t, ' ') {
            Some(i) => if 0 <= i < t.len() {
                match parse_tags(t.subrange(1, i)) {
                    Some(ts) => parse_after_tags(t.skip(i + 1), Some(ts)),
                    None => None,
                }
            } else {
                None
            },
            None => None,
        }
    } else {
        parse_after_tags(t, None)
    }
}

// ------------------------------------------------------------------
// Executable serialization.
// ------------------------------------------------------------------

fn tag_to_line(t: &Tag) -> (r: String)
    ensures
        r@ == serialize_tag(t@),
{
    let mut s = t.key.clone();
    match &t.value {
        Some(v) => {
            proof {
                reveal_strlit("=");
            }
            s.append("=");
            s.append(v.as_str());
            proof {
                assert(s@ =~= serialize_tag(t@));
            }
        },
        None => {},
    }
    s
}

fn tags_to_line(ts: &Vec<Tag>, i: usize) -> (r: String)
    requires
        i <= ts.len(),
    ensures
        r@ == serialize_tags(ts.deep_view().skip(i as int)),
    decreases ts.len() - i,
{
    if i == ts.len() {
        let r = String::new();
        proof {
            assert(ts.deep_view().skip(i as int) =~= Seq::<TagView>::empty());
        }
        r
    } else {
        let mut s = tag_to_line(&ts[i]);
        proof {
            assert(ts.deep_view().skip(i as int)[0] == ts[i as int]@);
            assert(ts.deep_view().skip(i as int).len() == ts.len() - i);
        }
        if i + 1 < ts.len() {
            proof {
                reveal_strlit(";");
            }
            s.append(";");
            let rest = tags_to_line(ts, i + 1);
            s.append(rest.as_str());
            proof {
                assert(ts.deep_view().skip(i as int).skip(1) =~= ts.deep_view().skip(i + 1));
                assert(s@ =~= serialize_tags(ts.deep_view().skip(i as int)));
            }
        }
        s
    }
}

fn args_to_line(args: &Vec<String>, i: usize) -> (r: String)
    requires
        i <= args.len(),
    ensures
        r@ == serialize_args(args.deep_view().skip(i as int)),
    decreases args.len() - i,
{
    if i == args.len() {
        let r = String::new();
        proof {
            assert(args.deep_view().skip(i as int) =~= Seq::<Seq<char>>::empty());
        }
        r
    } else {
        proof {
            reveal_strlit(" ");
            assert(args.deep_view().skip(i as int)[0] == args[i as int]@);
            assert(args.deep_view().skip(i as int).len() == args.len() - i);
        }
        let mut s = String::from_str(" ");
        assert(s@ =~= seq![' ']);
        s.append(args[i].as_str());
        let rest = args_to_line(args, i + 1);
        s.append(rest.as_str());
        proof {
            assert(args.deep_view().skip(i as int).skip(1) =~= args.deep_view().skip(i + 1));
            assert(s@ =~= serialize_args(args.deep_view().skip(i as int)));
        }
        s
    }
}

impl Message {
    /// Serialize into one wire line, ending in `\r\n`.
    pub fn into_string(&self) -> (r: String)
        ensures
            r@ == spec_serialize(self@),
    {
        proof {
            reveal_strlit("@");
            reveal_strlit(" ");
            reveal_strlit(":");
            reveal_strlit(" :");
            reveal_strlit("\r\n");
        }
        let mut s = String::new();
        match &self.tags {
            Some(ts) => {
                s.append("@");
                let t = tags_to_line(ts, 0);
                s.append(t.as_str());
                s.append(" ");
                proof {
                    assert(ts.deep_view().skip(0) =~= ts.deep_view());
                }
            },
            None => {},
        }
        match &self.prefix {
            Some(p) => {
                s.append(":");
                s.append(p.as_str());
                s.append(" ");
            },
            None => {},
        }
        s.append(self.command.as_str());
        let a = args_to_line(&self.args, 0);
        s.append(a.as_str());
        proof {
            assert(self.args.deep_view().skip(0) =~= self.args.deep_view());
        }
        match &self.suffix {
            Some(x) => {
                s.append(" :");
                s.append(x.as_str());
                proof {
                    assert((" :")@ =~= seq![' ', ':']);
                }
            },
            None => {},
        }
        s.append("\r\n");
        proof {
            assert(("\r\n")@ =~= seq!['\r', '\n']);
            assert(s@ =~= spec_serialize(self@));
        }
        s
    }
}

// ------------------------------------------------------------------
// Executable parsing.
// ------------------------------------------------------------------

fn parse_tag_str(s: &str) -> (r: Option<Tag>)
    ensures
        match r {
            Some(t) => parse_tag(s@) == Some(t@),
            None => parse_tag(s@) is None,
        },
{
    let n: usize = s.unicode_len();
    match find_ch(s, '=') {
        None => {
            if n > 0 {
                Some(Tag { key: String::from_str(s), value: None })
            } else {
                None
            }
        },
        Some(i) => {
            proof {
                lemma_find_idx(s@, '=');
            }
            if 0 < i {
                let key = String::from_str(s.substring_char(0, i));
                let value = String::from_str(s.substring_char(i + 1, n));
                proof {
                    assert(s@.subrange(i + 1 as int, n as int) =~= s@.skip(i + 1));
                }
                Some(Tag { key, value: Some(value) })
            } else {
                None
            }
        },
    }
}

fn parse_tags_str(s: &str) -> (r: Option<Vec<Tag>>)
    ensures
        match r {
            Some(ts) => parse_tags(s@) == Some(ts.deep_view()),
            None => parse_tags(s@) is None,
        },
    decreases s@.len(),
{
    let n: usize = s.unicode_len();
    match find_ch(s, ';') {
        None => {
            match parse_tag_str(s) {
                Some(t) => {
                    let ghost tv = t@;
                    let mut v: Vec<Tag> = Vec::new();
                    v.push(t);
                    proof {
                        assert(v.deep_view() =~= seq![tv]);
                    }
                    Some(v)
                },
                None => None,
            }
        },
        Some(i) => {
            proof {
                lemma_find_idx(s@, ';');
            }
            let head = s.substring_char(0, i);
            let tail = s.substring_char(i + 1, n);
            proof {
                assert(tail@ =~= s@.skip(i + 1));
            }
            match parse_tag_str(head) {
                Some(t) => {
                    match parse_tags_str(tail) {
                        Some(mut ts) => {
                            let ghost tv = t@;
                            let ghost tsv = ts.deep_view();
                            ts.insert(0, t);
                            proof {
                                assert(ts.deep_view() =~= seq![tv] + tsv);
                            }
                            Some(ts)
                        },
                        None => None,
                    }
                },
                None => None,
            }
        },
    }
}

fn parse_args_str(s: &str) -> (r: (Vec<String>, Option<String>))
    ensures
        ({
            let p = parse_args(s@);
            r.0.deep_view() == p.0 && (match r.1 {
                Some(x) => p.1 == Some(x@),
                None => p.1 is None,
            })
        }),
    decreases s@.len(),
{
    let n: usize = s.unicode_len();
    if n == 0 {
        let r = (Vec::<String>::new(), None::<String>);
        proof {
            assert(r.0.deep_view() =~= Seq::<Seq<char>>::empty());
        }
        r
    } else {
        let u = s.substring_char(1, n);
        proof {
            assert(u@ =~= s@.skip(1));
        }
        let un: usize = n - 1;
        if un > 0 && u.get_char(0) == ':' {
            let sfx = String::from_str(u.substring_char(1, un));
            proof {
                assert(u@.subrange(1, un as int) =~= u@.skip(1));
            }
            (Vec::<String>::new(), Some(sfx))
        } else {
            match find_ch(u, ' ') {
                None => {
                    let mut v: Vec<String> = Vec::new();
                    let ghost uv = u@;
                    v.push(String::from_str(u));
                    proof {
                        assert(v.deep_view() =~= seq![uv]);
                    }
                    (v, None::<String>)
                },
                Some(i) => {
                    proof {
                        lemma_find_idx(u@, ' ');
                    }
                    let a = String::from_str(u.substring_char(0, i));
                    let rest = u.substring_char(i, un);
                    proof {
                        assert(rest@ =~= u@.skip(i as int));
                        assert(rest@.len() < s@.len());
                    }
                    let pr = parse_args_str(rest);
                    let mut args = pr.0;
                    let ghost av = a@;
                    let ghost argsv = args.deep_view();
                    args.insert(0, a);
                    proof {
                        assert(args.deep_view() =~= seq![av] + argsv);
                    }
                    (args, pr.1)
                },
            }
        }
    }
}

impl Message {
    /// Parse one wire line. Fails exactly on lines the grammar rejects,
    /// handing back the offending line.
    pub fn parse(line: &str) -> (r: Result<Message, ProtocolError>)
        ensures
            match spec_parse(line@) {
                Some(v) => r matches Ok(m) && m@ == v,
                None => r matches Err(ProtocolError::ProtocolParse { line: l }) && l@ == line@,
            },
    {
        let n: usize = line.unicode_len();
        let t: &str = if n > 0 && line.get_char(n - 1) == '\n' {
            let t1 = line.substring_char(0, n - 1);
            proof {
                assert(t1@ =~= line@.drop_last());
            }
            let n1: usize = n - 1;
            if n1 > 0 && t1.get_char(n1 - 1) == '\r' {
                let t2 = t1.substring_char(0, n1 - 1);
                proof {
                    assert(t2@ =~= t1@.drop_last());
                }
                t2
            } else {
                t1
            }
        } else {
            line
        };
        proof {
            assert(t@ == strip_crlf(line@));
        }
        let tn: usize = t.unicode_len();
        if tn > 0 && t.get_char(0) == '@' {
            match find_ch(t, ' ') {
                Some(i) => {
                    proof {
                        lemma_find_idx(t@, ' ');
                    }
                    match parse_tags_str(t.substring_char(1, i)) {
                        Some(ts) => {
                            let rest = t.substring_char(i + 1, tn);
                            proof {
                                assert(rest@ =~= t@.skip(i + 1));
                            }
                            Self::parse_after_tags_str(rest, Some(ts), line)
                        },
                        None => Err(ProtocolError::ProtocolParse { line: String::from_str(line) }),
                    }
                },
                None => Err(ProtocolError::ProtocolParse { line: String::from_str(line) }),
            }
        } else {
            Self::parse_after_tags_str(t, None, line)
        }
    }

    fn parse_after_tags_str(t: &str, tags: Option<Vec<Tag>>, line: &str) -> (r: Result<
        Message,
        ProtocolError,
    >)
        ensures
            match parse_after_tags(
                t@,
                match tags {
                    Some(ts) => Some(ts.deep_view()),
                    None => None,
                },
            ) {
                Some(v) => r matches Ok(m) && m@ == v,
                None => r matches Err(ProtocolError::ProtocolParse { line: l }) && l@ == line@,
            },
    {
        let tn: usize = t.unicode_len();
        if tn > 0 && t.get_char(0) == ':' {
            match find_ch(t, ' ') {
                Some(i) => {
                    proof {
                        lemma_find_idx(t@, ' ');
                    }
                    let prefix = String::from_str(t.substring_char(1, i));
                    let rest = t.substring_char(i + 1, tn);
                    proof {
                        assert(rest@ =~= t@.skip(i + 1));
                    }
                    Self::parse_cmd_str(rest, tags, Some(prefix), line)
                },
                None => Err(ProtocolError::ProtocolParse { line: String::from_str(line) }),
            }
        } else {
            Self::parse_cmd_str(t, tags, None, line)
        }
    }

    fn parse_cmd_str(t: &str, tags: Option<Vec<Tag>>, prefix: Option<String>, line: &str) -> (r:
        Result<Message, ProtocolError>)
        ensures
            match parse_cmd(
                t@,
                match tags {
                    Some(ts) => Some(ts.deep_view()),
                    None => None,
                },
                match prefix {
                    Some(p) => Some(p@),
                    None => None,
                },
            ) {
                Some(v) => r matches Ok(m) && m@ == v,
                None => r matches Err(ProtocolError::ProtocolParse { line: l }) && l@ == line@,
            },
    {
        let tn: usize = t.unicode_len();
        let (command, rest): (String, &str) = match find_ch(t, ' ') {
            None => (String::from_str(t), ""),
            Some(i) => {
                proof {
                    lemma_find_idx(t@, ' ');
                }
                (String::from_str(t.substring_char(0, i)), t.substring_char(i, tn))
            },
        };
        proof {
            reveal_strlit("");
        }
        if command.as_str().unicode_len() == 0 {
            Err(ProtocolError::ProtocolParse { line: String::from_str(line) })
        } else {
            let pr = parse_args_str(rest);
            Ok(Message { tags, prefix, command, args: pr.0, suffix: pr.1 })
        }
    }
}

// ------------------------------------------------------------------
// Round trip: parsing a serialized valid message gives it back.
// ------------------------------------------------------------------

proof fn lemma_serialize_tag_chars(t: TagView)
    requires
        valid_tag(t),
    ensures
        forall|i: int|
            0 <= i < serialize_tag(t).len() ==> serialize_tag(t)[i] != ' ' && serialize_tag(t)[i]
                != '\r' && serialize_tag(t)[i] != '\n' && serialize_tag(t)[i] != ';',
{
    match t.value {
        Some(v) => {
            let s = serialize_tag(t);
            assert forall|i: int| 0 <= i < s.len() implies s[i] != ' ' && s[i] != '\r' && s[i]
                != '\n' && s[i] != ';' by {
                if i < t.key.len() {
                    assert(s[i] == t.key[i]);
                } else if i == t.key.len() {
                    assert(s[i] == '=');
                } else {
                    assert(s[i] == v[i - t.key.len() - 1]);
                }
            }
        },
        None => {},
    }
}

proof fn lemma_serialize_tags_chars(ts: Seq<TagView>)
    requires
        forall|i: int| 0 <= i < ts.len() ==> valid_tag(#[trigger] ts[i]),
    ensures
        forall|i: int|
            0 <= i < serialize_tags(ts).len() ==> serialize_tags(ts)[i] != ' '
                && serialize_tags(ts)[i] != '\r' && serialize_tags(ts)[i] != '\n',
    decreases ts.len(),
{
    if ts.len() == 0 {
    } else if ts.len() == 1 {
        lemma_serialize_tag_chars(ts[0]);
    } else {
        lemma_serialize_tag_chars(ts[0]);
        lemma_serialize_tags_chars(ts.skip(1));
        let h = serialize_tag(ts[0]);
        let rest = serialize_tags(ts.skip(1));
        let s = serialize_tags(ts);
        assert forall|i: int| 0 <= i < s.len() implies s[i] != ' ' && s[i] != '\r' && s[i] != '\n' by {
            if i < h.len() {
                assert(s[i] == h[i]);
            } else if i == h.len() {
                assert(s[i] == ';');
            } else {
                assert(s[i] == rest[i - h.len() - 1]);
            }
        }
    }
}

proof fn lemma_serialize_args_chars(args: Seq<Seq<char>>)
    requires
        forall|i: int| 0 <= i < args.len() ==> ok_chars(#[trigger] args[i]),
    ensures
        forall|i: int|
            0 <= i < serialize_args(args).len() ==> serialize_args(args)[i] != '\r'
                && serialize_args(args)[i] != '\n',
    decreases args.len(),
{
    if args.len() > 0 {
        lemma_serialize_args_chars(args.skip(1));
        let a0 = args[0];
        let rest = serialize_args(args.skip(1));
        let s = serialize_args(args);
        assert forall|i: int| 0 <= i < s.len() implies s[i] != '\r' && s[i] != '\n' by {
            if i == 0 {
                assert(s[i] == ' ');
            } else if i <= a0.len() {
                assert(s[i] == a0[i - 1]);
            } else {
                assert(s[i] == rest[i - a0.len() - 1]);
            }
        }
    }
}

proof fn lemma_parse_tag_rt(t: TagView)
    requires
        valid_tag(t),
    ensures
        parse_tag(serialize_tag(t)) == Some(t),
{
    match t.value {
        None => {
            lemma_find_idx_none(t.key, '=');
        },
        Some(v) => {
            let s = serialize_tag(t);
            assert(s.len() == t.key.len() + 1 + v.len());
            assert(s[t.key.len() as int] == '=');
            assert(forall|j: int| 0 <= j < t.key.len() ==> s[j] == t.key[j]);
            lemma_find_idx_at(s, '=', t.key.len() as int);
            assert(s.subrange(0, t.key.len() as int) =~= t.key);
            assert(s.skip(t.key.len() as int + 1) =~= v);
        },
    }
}

proof fn lemma_parse_tags_rt(ts: Seq<TagView>)
    requires
        ts.len() > 0,
        forall|i: int| 0 <= i < ts.len() ==> valid_tag(#[trigger] ts[i]),
    ensures
        parse_tags(serialize_tags(ts)) == Some(ts),
    decreases ts.len(),
{
    let s = serialize_tags(ts);
    if ts.len() == 1 {
        lemma_serialize_tag_chars(ts[0]);
        lemma_find_idx_none(s, ';');
        lemma_parse_tag_rt(ts[0]);
        assert(seq![ts[0]] =~= ts);
    } else {
        let h = serialize_tag(ts[0]);
        let rest = serialize_tags(ts.skip(1));
        lemma_serialize_tag_chars(ts[0]);
        assert(s.len() == h.len() + 1 + rest.len());
        assert(s[h.len() as int] == ';');
        assert(forall|j: int| 0 <= j < h.len() ==> s[j] == h[j]);
        lemma_find_idx_at(s, ';', h.len() as int);
        assert(s.subrange(0, h.len() as int) =~= h);
        lemma_parse_tag_rt(ts[0]);
        assert(s.skip(h.len() as int + 1) =~= rest);
        assert(ts.skip(1).len() > 0);
        assert(forall|i: int| 0 <= i < ts.skip(1).len() ==> valid_tag(#[trigger] ts.skip(1)[i]));
        lemma_parse_tags_rt(ts.skip(1));
        assert(seq![ts[0]] + ts.skip(1) =~= ts);
    }
}

proof fn lemma_parse_args_rt(args: Seq<Seq<char>>, sfx: Option<Seq<char>>)
    requires
        forall|i: int|
            0 <= i < args.len() ==> ok_chars(#[trigger] args[i]) && args[i].len() > 0
                && args[i][0] != ':',
    ensures
        parse_args(serialize_args(args) + serialize_suffix(sfx)) == (args, sfx),
    decreases args.len(),
{
    let t = serialize_args(args) + serialize_suffix(sfx);
    if args.len() == 0 {
        match sfx {
            None => {
                assert(t.len() == 0);
                assert(parse_args(t) == (Seq::<Seq<char>>::empty(), None::<Seq<char>>));
                assert(args =~= Seq::<Seq<char>>::empty());
            },
            Some(x) => {
                assert(t =~= seq![' ', ':'] + x);
                let u = t.skip(1);
                assert(u =~= seq![':'] + x);
                assert(u[0] == ':');
                assert(u.skip(1) =~= x);
                assert(args =~= Seq::<Seq<char>>::empty());
            },
        }
    } else {
        let a0 = args[0];
        let rest = serialize_args(args.skip(1)) + serialize_suffix(sfx);
        assert(t =~= seq![' '] + a0 + rest);
        assert(t.len() > 0 && t[0] == ' ');
        let u = t.skip(1);
        assert(u =~= a0 + rest);
        assert(u.len() > 0);
        assert(u[0] == a0[0]);
        assert(u[0] != ':');
        if rest.len() == 0 {
            assert(u =~= a0);
            lemma_find_idx_none(u, ' ');
            assert(args.skip(1).len() == 0) by {
                if args.skip(1).len() > 0 {
                    assert(serialize_args(args.skip(1)).len() > 0);
                }
            }
            assert(sfx is None) by {
                if sfx is Some {
                    assert(serialize_suffix(sfx).len() >= 2);
                }
            }
            assert(seq![u] =~= args);
        } else {
            assert(rest[0] == ' ') by {
                if args.skip(1).len() > 0 {
                    assert(serialize_args(args.skip(1))[0] == ' ');
                } else {
                    assert(serialize_args(args.skip(1)).len() == 0);
                    assert(sfx is Some);
                }
            }
            assert(u[a0.len() as int] == rest[0]);
            assert(forall|j: int| 0 <= j < a0.len() ==> u[j] == a0[j]);
            lemma_find_idx_at(u, ' ', a0.len() as int);
            let i = a0.len() as int;
            assert(0 <= i < u.len());
            assert(u.subrange(0, i) =~= a0);
            assert(u.skip(i) =~= rest);
            assert(forall|k: int|
                0 <= k < args.skip(1).len() ==> ok_chars(#[trigger] args.skip(1)[k]) && args.skip(
                    1,
                )[k].len() > 0 && args.skip(1)[k][0] != ':');
            lemma_parse_args_rt(args.skip(1), sfx);
            assert(seq![a0] + args.skip(1) =~= args);
        }
    }
}

proof fn lemma_parse_cmd_rt(m: MessageView)
    requires
        valid_message(m),
    ensures
        parse_cmd(m.command + serialize_args(m.args) + serialize_suffix(m.suffix), m.tags, m.prefix)
            == Some(m),
{
    let cmd = m.command;
    let rest = serialize_args(m.args) + serialize_suffix(m.suffix);
    let t = cmd + rest;
    assert(cmd + serialize_args(m.args) + serialize_suffix(m.suffix) =~= t);
    if rest.len() == 0 {
        assert(t =~= cmd);
        lemma_find_idx_none(t, ' ');
        assert(m.args.len() == 0) by {
            if m.args.len() > 0 {
                assert(serialize_args(m.args).len() > 0);
            }
        }
        assert(m.suffix is None) by {
            if m.suffix is Some {
                assert(serialize_suffix(m.suffix).len() >= 2);
            }
        }
        assert(parse_args(Seq::<char>::empty()) == (Seq::<Seq<char>>::empty(), None::<Seq<char>>));
        assert(Seq::<Seq<char>>::empty() =~= m.args);
    } else {
        assert(rest[0] == ' ') by {
            if m.args.len() > 0 {
                assert(serialize_args(m.args)[0] == ' ');
            } else {
                assert(serialize_args(m.args).len() == 0);
                assert(m.suffix is Some);
            }
        }
        assert(t[cmd.len() as int] == rest[0]);
        assert(forall|j: int| 0 <= j < cmd.len() ==> t[j] == cmd[j]);
        lemma_find_idx_at(t, ' ', cmd.len() as int);
        let i = cmd.len() as int;
        assert(0 <= i < t.len());
        assert(t.subrange(0, i) =~= cmd);
        assert(t.skip(i) =~= rest);
        lemma_parse_args_rt(m.args, m.suffix);
    }
}

proof fn lemma_parse_after_tags_rt(m: MessageView)
    requires
        valid_message(m),
    ensures
        parse_after_tags(
            (match m.prefix {
                Some(p) => seq![':'] + p + seq![' '],
                None => Seq::<char>::empty(),
            }) + m.command + serialize_args(m.args) + serialize_suffix(m.suffix),
            m.tags,
        ) == Some(m),
{
    let r2 = m.command + serialize_args(m.args) + serialize_suffix(m.suffix);
    match m.prefix {
        None => {
            let t = Seq::<char>::empty() + m.command + serialize_args(m.args) + serialize_suffix(
                m.suffix,
            );
            assert(t =~= r2);
            assert(t.len() > 0);
            assert(t[0] == m.command[0]);
            assert(t[0] != ':');
            lemma_parse_cmd_rt(m);
        },
        Some(p) => {
            let t = (seq![':'] + p + seq![' ']) + m.command + serialize_args(m.args)
                + serialize_suffix(m.suffix);
            assert(t =~= (seq![':'] + p + seq![' ']) + r2);
            assert(t.len() == p.len() + 2 + r2.len());
            assert(t[0] == ':');
            assert(t[1 + p.len() as int] == ' ');
            assert(forall|j: int| 0 <= j < p.len() ==> t[1 + j] == p[j]);
            assert(forall|j: int| 1 <= j < 1 + p.len() ==> t[j] != ' ');
            lemma_find_idx_at(t, ' ', 1 + p.len() as int);
            let i = 1 + p.len() as int;
            assert(0 <= i < t.len());
            assert(t.subrange(1, i) =~= p);
            assert(t.skip(i + 1) =~= r2);
            lemma_parse_cmd_rt(m);
        },
    }
}

proof fn lemma_strip_serialized(m: MessageView)
    ensures
        strip_crlf(spec_serialize(m)) =~= spec_body(m),
{
    let s = spec_serialize(m);
    assert(s.len() == spec_body(m).len() + 2);
    assert(s[s.len() - 1] == '\n');
    let t = s.drop_last();
    assert(t =~= spec_body(m) + seq!['\r']);
    assert(t[t.len() - 1] == '\r');
    assert(t.drop_last() =~= spec_body(m));
}

/// Round trip: serialization followed by parsing restores the message.
pub proof fn lemma_round_trip(m: MessageView)
    requires
        valid_message(m),
    ensures
        spec_parse(spec_serialize(m)) == Some(m),
{
    lemma_strip_serialized(m);
    let body = spec_body(m);
    let r1 = (match m.prefix {
        Some(p) => seq![':'] + p + seq![' '],
        None => Seq::<char>::empty(),
    }) + m.command + serialize_args(m.args) + serialize_suffix(m.suffix);
    match m.tags {
        None => {
            assert(body =~= r1);
            assert(body.len() > 0);
            match m.prefix {
                Some(p) => {
                    assert(body[0] == ':');
                },
                None => {
                    assert(body[0] == m.command[0]);
                },
            }
            assert(body[0] != '@');
            assert(strip_crlf(spec_serialize(m)) == body);
            lemma_parse_after_tags_rt(m);
        },
        Some(ts) => {
            let tstr = serialize_tags(ts);
            assert(body =~= seq!['@'] + tstr + seq![' '] + r1);
            assert(body[0] == '@');
            lemma_serialize_tags_chars(ts);
            assert(body[1 + tstr.len() as int] == ' ');
            assert(forall|j: int| 1 <= j < 1 + tstr.len() ==> body[j] == tstr[j - 1]);
            assert(forall|j: int| 0 <= j < 1 + tstr.len() ==> body[j] != ' ');
            lemma_find_idx_at(body, ' ', 1 + tstr.len() as int);
            let i = 1 + tstr.len() as int;
            assert(m.command.len() > 0);
            assert(r1.len() > 0);
            assert(0 <= i < body.len());
            assert(body.subrange(1, i) =~= tstr);
            lemma_parse_tags_rt(ts);
            assert(body.skip(i + 1) =~= r1);
            assert(strip_crlf(spec_serialize(m)) == body);
            lemma_parse_after_tags_rt(m);
        },
    }
}

/// Every serialized message ends in `\r\n`, and a valid message's
/// serialization contains no other carriage return or newline.
pub proof fn lemma_serialized_shape(m: MessageView)
    requires
        valid_message(m),
    ensures
        spec_serialize(m).len() >= 2,
        spec_serialize(m)[spec_serialize(m).len() - 2] == '\r',
        spec_serialize(m)[spec_serialize(m).len() - 1] == '\n',
        forall|i: int|
            0 <= i < spec_serialize(m).len() - 2 ==> spec_serialize(m)[i] != '\r'
                && spec_serialize(m)[i] != '\n',
{
    let body = spec_body(m);
    let a = (match m.tags {
        Some(ts) => seq!['@'] + serialize_tags(ts) + seq![' '],
        None => Seq::<char>::empty(),
    });
    let b = (match m.prefix {
        Some(p) => seq![':'] + p + seq![' '],
        None => Seq::<char>::empty(),
    });
    let c = serialize_args(m.args);
    let d = serialize_suffix(m.suffix);
    assert(body =~= a + b + m.command + c + d);
    match m.tags {
        Some(ts) => {
            lemma_serialize_tags_chars(ts);
        },
        None => {},
    }
    lemma_serialize_args_chars(m.args);
    assert forall|i: int| 0 <= i < body.len() implies body[i] != '\r' && body[i] != '\n' by {
        let bb = a + b + m.command + c + d;
        assert(body[i] == bb[i]);
        if i < a.len() {
            match m.tags {
                Some(ts) => {
                    let tstr = serialize_tags(ts);
                    if i == 0 {
                        assert(a[i] == '@');
                    } else if i < 1 + tstr.len() {
                        assert(a[i] == tstr[i - 1]);
                    } else {
                        assert(a[i] == ' ');
                    }
                },
                None => {},
            }
        } else if i < a.len() + b.len() {
            let j = i - a.len();
            match m.prefix {
                Some(p) => {
                    if j == 0 {
                        assert(b[j] == ':');
                    } else if j < 1 + p.len() {
                        assert(b[j] == p[j - 1]);
                    } else {
                        assert(b[j] == ' ');
                    }
                },
                None => {},
            }
        } else if i < a.len() + b.len() + m.command.len() {
            assert(bb[i] == m.command[i - a.len() - b.len()]);
        } else if i < a.len() + b.len() + m.command.len() + c.len() {
            assert(bb[i] == c[i - a.len() - b.len() - m.command.len()]);
        } else {
            let j = i - a.len() - b.len() - m.command.len() - c.len();
            match m.suffix {
                Some(x) => {
                    if j == 0 {
                        assert(d[j] == ' ');
                    } else if j == 1 {
                        assert(d[j] == ':');
                    } else {
                        assert(d[j] == x[j - 2]);
                    }
                },
                None => {},
            }
        }
    }
    let s = spec_serialize(m);
    assert(s[s.len() - 2] == '\r');
    assert(s[s.len() - 1] == '\n');
    assert(forall|i: int| 0 <= i < s.len() - 2 ==> s[i] == body[i]);
}

} // verus!
