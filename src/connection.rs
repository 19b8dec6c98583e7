use vstd::prelude::*;
use vstd::string::*;

use crate::message::{
    data_text, data_views, push_char, split_once, split_once_char, Data, DataView, Message,
    MessageView,
};
use crate::sso::{error_text, opt_text, LoginError, LoginErrorView};

verus! {

/// What one connection remembers: the address that logged in and its session token.
pub struct Connection {
    pub email: Option<String>,
    pub token: Option<String>,
}

pub struct ConnectionView {
    pub email: Option<Seq<char>>,
    pub token: Option<Seq<char>>,
}

impl View for Connection {
    type V = ConnectionView;

    open spec fn view(&self) -> ConnectionView {
        ConnectionView { email: opt_text(self.email), token: opt_text(self.token) }
    }
}

/// What the connection does next.
pub enum Action {
    /// Write `reply` to the client; print `log` first, where there is one.
    Send { reply: String, log: Option<String> },
    /// Run the single sign-on login for `username`, then report with `complete_login`.
    Authenticate { id: String, email: String, username: String, password: String },
    /// Close the connection without a reply.
    Close,
}

pub enum ActionView {
    Send { reply: Seq<char>, log: Option<Seq<char>> },
    Authenticate { id: Seq<char>, email: Seq<char>, username: Seq<char>, password: Seq<char> },
    Close,
}

impl View for Action {
    type V = ActionView;

    open spec fn view(&self) -> ActionView {
        match self {
            Action::Send { reply, log } => ActionView::Send { reply: reply@, log: opt_text(*log) },
            Action::Authenticate { id, email, username, password } => ActionView::Authenticate {
                id: id@,
                email: email@,
                username: username@,
                password: password@,
            },
            Action::Close => ActionView::Close,
        }
    }
}

pub open spec fn greeting_text() -> Seq<char> {
    "* OK IMAP4rev1 server ready\r\n"@
}

pub open spec fn capability_reply(id: Seq<char>) -> Seq<char> {
    "* CAPABILITY IMAP4rev1\r\n"@ + id + " OK CAPABILITY completed\r\n"@
}

pub open spec fn login_reply(id: Seq<char>) -> Seq<char> {
    id + " OK LOGIN completed\r\n"@
}

pub open spec fn noop_reply(id: Seq<char>) -> Seq<char> {
    id + " OK NOOP completed\r\n"@
}

pub open spec fn bad_credentials_reply(id: Seq<char>) -> Seq<char> {
    id + " NO bad credentials\r\n"@
}

pub open spec fn bad_request_reply() -> Seq<char> {
    "* BAD bad request\r\n"@
}

pub open spec fn unknown_reply(id: Seq<char>, command: Seq<char>) -> Seq<char> {
    id + " BAD unknown command: "@ + command + "\r\n"@
}

pub open spec fn internal_error_reply(id: Seq<char>, text: Seq<char>) -> Seq<char> {
    id + " BAD "@ + text + "\r\n"@
}

/// Words joined by single spaces.
pub open spec fn join_words(words: Seq<Seq<char>>) -> Seq<char>
    decreases words.len(),
{
    if words.len() == 0 {
        Seq::empty()
    } else if words.len() == 1 {
        words[0]
    } else {
        join_words(words.drop_last()) + " "@ + words.last()
    }
}

/// The line printed for a command that is not understood: tag, command, arguments.
pub open spec fn unknown_log(id: Seq<char>, command: Seq<char>, args: Seq<DataView>) -> Seq<char> {
    id + " "@ + command + " "@ + join_words(args.map_values(|d: DataView| data_text(d)))
}

/// Backend account name for an address `first.last@domain`: `e-`, the first letter of
/// `first` (a NUL character where `first` is empty), then up to seven characters of `last`.
/// `None` where the address has no `@`, or no `.` before it.
pub open spec fn username_of(email: Seq<char>) -> Option<Seq<char>> {
    match split_once(email, '@') {
        None => None,
        Some((local, _)) => match split_once(local, '.') {
            None => None,
            Some((first, last)) => Some(
                "e-"@ + seq![if first.len() > 0 { first[0] } else { '\0' }] + last.take(
                    if last.len() < 7 { last.len() as int } else { 7 },
                ),
            ),
        },
    }
}

/// State and action after one decoded line.
pub open spec fn step(st: ConnectionView, m: MessageView) -> (ConnectionView, ActionView) {
    match m {
        MessageView::Capability { id } => (
            st,
            ActionView::Send { reply: capability_reply(id), log: None },
        ),
        MessageView::Login { id, email, password } => match username_of(email) {
            None => (
                ConnectionView { token: None, ..st },
                ActionView::Send { reply: bad_credentials_reply(id), log: None },
            ),
            Some(username) => (st, ActionView::Authenticate { id, email, username, password }),
        },
        MessageView::NoOp { id } => (st, ActionView::Send { reply: noop_reply(id), log: None }),
        MessageView::End => (st, ActionView::Close),
        MessageView::Unknown { id, command, args } => (
            st,
            ActionView::Send {
                reply: unknown_reply(id, command),
                log: Some(unknown_log(id, command, args)),
            },
        ),
        MessageView::Bad(raw) => (st, ActionView::Send { reply: bad_request_reply(), log: Some(raw) }),
    }
}

/// State and action once the login for `email` has come back with `outcome`.
pub open spec fn login_step(
    st: ConnectionView,
    id: Seq<char>,
    email: Seq<char>,
    outcome: Result<Seq<char>, LoginErrorView>,
) -> (ConnectionView, ActionView) {
    match outcome {
        Ok(token) => (
            ConnectionView { email: Some(email), token: Some(token) },
            ActionView::Send { reply: login_reply(id), log: None },
        ),
        Err(LoginErrorView::NoAssertion) => (
            ConnectionView { token: None, ..st },
            ActionView::Send { reply: bad_credentials_reply(id), log: None },
        ),
        Err(e) => (
            st,
            ActionView::Send {
                reply: internal_error_reply(id, error_text(e)),
                log: Some(error_text(e)),
            },
        ),
    }
}

/// Backend account name for a login address, where the address has the expected shape.
pub fn backend_username(email: &str) -> (r: Option<String>)
    ensures
        opt_text(r) == username_of(email@),
{
    let local = match split_once_char(email, '@') {
        Some(p) => p.0,
        None => {
            return None;
        },
    };
    let (first, last) = match split_once_char(local.as_str(), '.') {
        Some(p) => p,
        None => {
            return None;
        },
    };
    let mut u = "e-".to_owned();
    let c = if first.as_str().unicode_len() > 0 {
        first.as_str().get_char(0)
    } else {
        '\0'
    };
    push_char(&mut u, c);
    let n = last.as_str().unicode_len();
    let k: usize = if n < 7 { n } else { 7 };
    u.append(last.as_str().substring_char(0, k));
    assert(u@ =~= username_of(email@)->0);
    Some(u)
}

fn join_args(args: &Vec<Data>) -> (r: String)
    ensures
        r@ == join_words(data_views(args@).map_values(|d: DataView| data_text(d))),
{
    let ghost words = data_views(args@).map_values(|d: DataView| data_text(d));
    let mut r = String::new();
    let mut i: usize = 0;
    while i < args.len()
        invariant
            i <= args@.len(),
            words == data_views(args@).map_values(|d: DataView| data_text(d)),
            words.len() == args@.len(),
            r@ == join_words(words.take(i as int)),
        decreases args@.len() - i,
    {
        let w = args[i].to_string();
        assert(words.take(i + 1).drop_last() =~= words.take(i as int));
        if i > 0 {
            r.append(" ");
        }
        r.append(w.as_str());
        proof {
            assert(data_views(args@)[i as int] == args@[i as int]@);
            assert(w@ == words[i as int]);
            if i == 0 {
                assert(r@ =~= join_words(words.take(1)));
            } else {
                assert(r@ =~= join_words(words.take(i + 1)));
            }
        }
        i = i + 1;
    }
    assert(words.take(args@.len() as int) =~= words);
    r
}

fn text(s: &str) -> (r: String)
    ensures
        r@ == s@,
{
    s.to_owned()
}

impl Connection {
    /// A fresh connection: nobody logged in.
    pub fn new() -> (r: Connection)
        ensures
            r@.email is None,
            r@.token is None,
    {
        Connection { email: None, token: None }
    }

    /// The line that greets a new client.
    pub fn greeting() -> (r: String)
        ensures
            r@ == greeting_text(),
    {
        text("* OK IMAP4rev1 server ready\r\n")
    }

    /// Decides what to do with one decoded line.
    pub fn handle(&mut self, message: Message) -> (r: Action)
        ensures
            (final(self)@, r@) == step(old(self)@, message@),
            message@ is NoOp ==> final(self)@ == old(self)@,
    {
        match message {
            Message::Capability { id } => {
                let reply = text("* CAPABILITY IMAP4rev1\r\n").concat(id.as_str()).concat(
                    " OK CAPABILITY completed\r\n",
                );
                Action::Send { reply, log: None }
            },
            Message::Login { id, email, password } => {
                match backend_username(email.as_str()) {
                    None => {
                        self.token = None;
                        Action::Send { reply: id.concat(" NO bad credentials\r\n"), log: None }
                    },
                    Some(username) => Action::Authenticate { id, email, username, password },
                }
            },
            Message::NoOp { id } => Action::Send {
                reply: id.concat(" OK NOOP completed\r\n"),
                log: None,
            },
            Message::End => Action::Close,
            Message::Unknown { id, command, args } => {
                let log = id.clone().concat(" ").concat(command.as_str()).concat(" ").concat(
                    join_args(&args).as_str(),
                );
                let reply = id.concat(" BAD unknown command: ").concat(command.as_str()).concat(
                    "\r\n",
                );
                Action::Send { reply, log: Some(log) }
            },
            Message::Bad(raw) => Action::Send { reply: text("* BAD bad request\r\n"), log: Some(raw) },
        }
    }

    /// Records the outcome of a login and says what to answer.
    pub fn complete_login(&mut self, id: String, email: String, outcome: Result<String, LoginError>) -> (r:
        Action)
        ensures
            (final(self)@, r@) == login_step(
                old(self)@,
                id@,
                email@,
                match outcome {
                    Ok(t) => Ok(t@),
                    Err(e) => Err(e@),
                },
            ),
    {
        match outcome {
            Ok(token) => {
                self.email = Some(email);
                self.token = Some(token);
                Action::Send { reply: id.concat(" OK LOGIN completed\r\n"), log: None }
            },
            Err(LoginError::NoAssertion) => {
                self.token = None;
                Action::Send { reply: id.concat(" NO bad credentials\r\n"), log: None }
            },
            Err(e) => {
                let msg = e.message();
                let reply = id.concat(" BAD ").concat(msg.as_str()).concat("\r\n");
                Action::Send { reply, log: Some(msg) }
            },
        }
    }
}


/// State after a run of decoded lines, each handled in turn.
pub open spec fn run(st: ConnectionView, messages: Seq<MessageView>) -> ConnectionView
    decreases messages.len(),
{
    if messages.len() == 0 {
        st
    } else {
        step(run(st, messages.drop_last()), messages.last()).0
    }
}

/// One `NOOP` line for each tag.
pub open spec fn noops(ids: Seq<Seq<char>>) -> Seq<MessageView> {
    ids.map_values(|id: Seq<char>| MessageView::NoOp { id })
}

/// Any number of `NOOP` commands leaves the connection's state as it was: after each
/// of them, and so after all of them. `Connection::handle` makes exactly one `step` per
/// call, so this holds of any run of `handle` calls on `NOOP` lines.
pub proof fn lemma_noops_keep_state(st: ConnectionView, ids: Seq<Seq<char>>)
    ensures
        run(st, noops(ids)) == st,
        forall|k: int| 0 <= k <= ids.len() ==> run(st, #[trigger] noops(ids).take(k)) == st,
    decreases ids.len(),
{
    let msgs = noops(ids);
    if ids.len() > 0 {
        assert(msgs.drop_last() =~= noops(ids.drop_last()));
        lemma_noops_keep_state(st, ids.drop_last());
    }
    assert forall|k: int| 0 <= k <= ids.len() implies run(st, #[trigger] msgs.take(k)) == st by {
        if k == ids.len() {
            assert(msgs.take(k) =~= msgs);
        } else {
            assert(msgs.take(k) =~= msgs.drop_last().take(k));
            assert(msgs.drop_last() =~= noops(ids.drop_last()));
        }
    }
}

} // verus!
