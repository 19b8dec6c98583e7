use vstd::prelude::*;
use vstd::string::*;

verus! {

/// One decoded argument of a client command.
pub enum Data {
    Atom(String),
    Number(i32),
    String(String),
    Nil,
}

/// Mathematical model of an argument.
pub enum DataView {
    Atom(Seq<char>),
    Number(int),
    Quoted(Seq<char>),
    Nil,
}

impl View for Data {
    type V = DataView;

    open spec fn view(&self) -> DataView {
        match self {
            Data::Atom(s) => DataView::Atom(s@),
            Data::Number(n) => DataView::Number(*n as int),
            Data::String(s) => DataView::Quoted(s@),
            Data::Nil => DataView::Nil,
        }
    }
}

pub open spec fn is_digit(c: char) -> bool {
    '0' <= c && c <= '9'
}

pub open spec fn digit_value(c: char) -> int {
    (c as u32) - ('0' as u32)
}

/// Value of a non-empty run of decimal digits.
pub open spec fn digits_value(d: Seq<char>) -> int
    decreases d.len(),
{
    if d.len() == 0 {
        0
    } else {
        digits_value(d.drop_last()) * 10 + digit_value(d.last())
    }
}

pub open spec fn all_digits(d: Seq<char>) -> bool {
    forall|i: int| 0 <= i < d.len() ==> is_digit(#[trigger] d[i])
}

pub open spec fn has_sign(s: Seq<char>) -> bool {
    s.len() > 0 && (s[0] == '+' || s[0] == '-')
}

/// The text as a signed decimal `i32`: an optional sign, then at least one digit, and
/// nothing else; `None` where the text is not of that shape or the value does not fit.
pub open spec fn decimal_value(s: Seq<char>) -> Option<int> {
    let d = if has_sign(s) { s.drop_first() } else { s };
    let v = if s.len() > 0 && s[0] == '-' { -digits_value(d) } else { digits_value(d) };
    if d.len() > 0 && all_digits(d) && i32::MIN <= v <= i32::MAX {
        Some(v)
    } else {
        None
    }
}

pub open spec fn digit_char(n: nat) -> char
    recommends n < 10,
{
    ((48 + n) as u8) as char
}

/// Decimal digits of a natural number, without leading zeros.
pub open spec fn nat_text(n: nat) -> Seq<char>
    decreases n,
{
    if n < 10 {
        seq![digit_char(n)]
    } else {
        nat_text(n / 10).push(digit_char(n % 10))
    }
}

/// Decimal text of an integer, with a leading `-` when negative.
pub open spec fn int_text(n: int) -> Seq<char> {
    if n < 0 {
        seq!['-'] + nat_text((-n) as nat)
    } else {
        nat_text(n as nat)
    }
}

pub open spec fn nil_text() -> Seq<char> {
    seq!['n', 'i', 'l']
}

/// How an unquoted token is classified.
pub open spec fn classify(tok: Seq<char>) -> DataView {
    match decimal_value(tok) {
        Some(n) => DataView::Number(n),
        None => if tok == nil_text() {
            DataView::Nil
        } else {
            DataView::Atom(tok)
        },
    }
}

/// Text form of an argument.
pub open spec fn data_text(d: DataView) -> Seq<char> {
    match d {
        DataView::Atom(s) => s,
        DataView::Quoted(s) => s,
        DataView::Number(n) => int_text(n),
        DataView::Nil => nil_text(),
    }
}

/// State of the tokenizer: finished arguments, pending text, inside quotes.
pub type ScanState = (Seq<DataView>, Seq<char>, bool);

pub open spec fn scan_step(st: ScanState, c: char) -> ScanState {
    if c == '"' {
        if st.2 {
            (st.0.push(DataView::Quoted(st.1)), Seq::empty(), false)
        } else {
            (st.0, st.1, true)
        }
    } else if c == ' ' && !st.2 {
        if st.1.len() == 0 {
            st
        } else {
            (st.0.push(classify(st.1)), Seq::empty(), false)
        }
    } else {
        (st.0, st.1.push(c), st.2)
    }
}

pub open spec fn scan(s: Seq<char>) -> ScanState
    decreases s.len(),
{
    if s.len() == 0 {
        (Seq::empty(), Seq::empty(), false)
    } else {
        scan_step(scan(s.drop_last()), s.last())
    }
}

/// Arguments decoded from an argument string: split on spaces outside quotes, text
/// between a pair of quotes taken whole, unquoted text at the end kept as a last token.
/// Text after a quote that is never closed is dropped.
pub open spec fn tokenize(s: Seq<char>) -> Seq<DataView> {
    let st = scan(s);
    if st.1.len() == 0 || st.2 {
        st.0
    } else {
        st.0.push(classify(st.1))
    }
}

/// Appends one character to a string.
/// Relies on String::push, which appends the character at the end.
#[verifier::external_body]
pub(crate) fn push_char(s: &mut String, c: char)
    ensures
        final(s)@ == old(s)@.push(c),
{
    s.push(c)
}

fn push_nat(s: &mut String, n: u32)
    ensures
        final(s)@ == old(s)@ + nat_text(n as nat),
    decreases n,
{
    if n >= 10 {
        push_nat(s, n / 10);
    }
    let d: u32 = n % 10;
    let c = (48u8 + d as u8) as char;
    push_char(s, c);
    proof {
        assert(c == digit_char(d as nat));
        assert(final(s)@ =~= old(s)@ + nat_text(n as nat));
    }
}

/// Decimal text of an integer.
pub fn int_to_text(n: i32) -> (r: String)
    ensures
        r@ == int_text(n as int),
{
    let mut s = String::new();
    if n < 0 {
        push_char(&mut s, '-');
        let m: u32 = (0i64 - n as i64) as u32;
        push_nat(&mut s, m);
    } else {
        push_nat(&mut s, n as u32);
    }
    assert(s@ =~= int_text(n as int));
    s
}


/// Cap that the digit accumulator saturates at: any value above `i32::MAX + 1` is out of range.
pub const DIGITS_CAP: u64 = 2147483649;

pub open spec fn capped(v: int) -> int {
    if v < DIGITS_CAP { v } else { DIGITS_CAP as int }
}

/// Parses the text as a signed decimal `i32`, as `str::parse::<i32>` does.
pub fn parse_decimal(s: &str) -> (r: Option<i32>)
    ensures
        r is Some <==> decimal_value(s@) is Some,
        r matches Some(n) ==> decimal_value(s@) == Some(n as int),
{
    let len = s.unicode_len();
    if len == 0 {
        return None;
    }
    let c0 = s.get_char(0);
    let neg = c0 == '-';
    let start: usize = if c0 == '+' || c0 == '-' { 1 } else { 0 };
    let ghost d = if has_sign(s@) { s@.drop_first() } else { s@ };
    assert(d =~= s@.skip(start as int));
    if start == len {
        return None;
    }
    let mut acc: u64 = 0;
    let mut i: usize = start;
    while i < len
        invariant
            start <= i <= len,
            len == s@.len(),
            d =~= s@.skip(start as int),
            d == (if has_sign(s@) { s@.drop_first() } else { s@ }),
            neg <==> s@[0] == '-',
            all_digits(d.take(i - start)),
            digits_value(d.take(i - start)) >= 0,
            acc as int == capped(digits_value(d.take(i - start))),
        decreases len - i,
    {
        let c = s.get_char(i);
        if !('0' <= c && c <= '9') {
            assert(d[i - start] == c);
            assert(!all_digits(d));

            return None;
        }
        let ghost prev = d.take(i - start);
        let ghost next = d.take(i - start + 1);
        assert(next.drop_last() =~= prev);
        assert(next.last() == c);
        let dv: u64 = (c as u32 - '0' as u32) as u64;
        assert(digit_value(c) == dv as int);
        proof {
            let v = digits_value(prev);
            assert(digits_value(next) == v * 10 + dv);
            if v >= DIGITS_CAP {
                assert(v * 10 + dv >= DIGITS_CAP) by (nonlinear_arith)
                    requires v >= DIGITS_CAP, dv >= 0;
            }
        }
        acc = acc * 10 + dv;
        if acc > DIGITS_CAP {
            acc = DIGITS_CAP;
        }
        i = i + 1;
        assert(all_digits(d.take(i - start)));
    }
    assert(d.take(i - start) =~= d);
    if neg {
        if acc <= 2147483648 {
            Some((0i64 - acc as i64) as i32)
        } else {
            None
        }
    } else {
        if acc <= 2147483647 {
            Some(acc as i32)
        } else {
            None
        }
    }
}


pub open spec fn data_views(v: Seq<Data>) -> Seq<DataView> {
    v.map_values(|d: Data| d@)
}

/// Classifies an unquoted token: a number, `nil`, or an atom.
fn classify_token(buf: String) -> (r: Data)
    ensures
        r@ == classify(buf@),
{
    match parse_decimal(buf.as_str()) {
        Some(n) => Data::Number(n),
        None => {
            let nil = "nil".to_owned();
            proof {
                reveal_strlit("nil");
                assert(nil@ =~= nil_text());
            }
            if buf == nil {
                Data::Nil
            } else {
                Data::Atom(buf)
            }
        },
    }
}

impl Data {
    /// Splits an argument string into arguments, honouring double quotes.
    pub fn str_to_list(args_str: &str) -> (r: Vec<Data>)
        ensures
            data_views(r@) == tokenize(args_str@),
    {
        let len = args_str.unicode_len();
        let mut datas: Vec<Data> = Vec::new();
        let mut buf = String::new();
        let mut in_quotes = false;
        let mut i: usize = 0;
        while i < len
            invariant
                i <= len,
                len == args_str@.len(),
                (data_views(datas@), buf@, in_quotes) == scan(args_str@.take(i as int)),
            decreases len - i,
        {
            let c = args_str.get_char(i);
            let ghost before = (data_views(datas@), buf@, in_quotes);
            proof {
                let t = args_str@.take(i + 1);
                assert(t.drop_last() =~= args_str@.take(i as int));
                assert(t.last() == c);
            }
            if c == '"' {
                if in_quotes {
                    let done = buf;
                    buf = String::new();
                    datas.push(Data::String(done));
                }
                in_quotes = !in_quotes;
            } else if c == ' ' && !in_quotes {
                if buf.unicode_len() != 0 {
                    let done = buf;
                    buf = String::new();
                    datas.push(classify_token(done));
                }
            } else {
                push_char(&mut buf, c);
            }
            proof {
                assert(data_views(datas@) =~= scan_step(before, c).0);
                assert(buf@ =~= scan_step(before, c).1);
            }
            i = i + 1;
        }
        if buf.unicode_len() != 0 && !in_quotes {
            datas.push(classify_token(buf));
        }
        proof {
            assert(args_str@.take(len as int) =~= args_str@);
            assert(data_views(datas@) =~= tokenize(args_str@));
        }
        datas
    }

    /// Text form of the argument.
    pub fn into_string(self) -> (r: String)
        ensures
            r@ == data_text(self@),
    {
        match self {
            Data::Atom(s) => s,
            Data::String(s) => s,
            Data::Number(n) => int_to_text(n),
            Data::Nil => {
                let r = "nil".to_owned();
                proof {
                    reveal_strlit("nil");
                    assert(r@ =~= nil_text());
                }
                r
            },
        }
    }

    /// Text form of the argument, leaving it in place.
    pub fn to_string(&self) -> (r: String)
        ensures
            r@ == data_text(self@),
    {
        match self {
            Data::Atom(s) => s.clone(),
            Data::String(s) => s.clone(),
            Data::Number(n) => int_to_text(*n),
            Data::Nil => {
                let r = "nil".to_owned();
                proof {
                    reveal_strlit("nil");
                    assert(r@ =~= nil_text());
                }
                r
            },
        }
    }
}


/// One decoded line of client input.
pub enum Message {
    Capability { id: String },
    Login { id: String, email: String, password: String },
    NoOp { id: String },
    End,
    Unknown { id: String, command: String, args: Vec<Data> },
    Bad(String),
}

/// Mathematical model of a decoded line.
pub enum MessageView {
    Capability { id: Seq<char> },
    Login { id: Seq<char>, email: Seq<char>, password: Seq<char> },
    NoOp { id: Seq<char> },
    End,
    Unknown { id: Seq<char>, command: Seq<char>, args: Seq<DataView> },
    Bad(Seq<char>),
}

impl View for Message {
    type V = MessageView;

    open spec fn view(&self) -> MessageView {
        match self {
            Message::Capability { id } => MessageView::Capability { id: id@ },
            Message::Login { id, email, password } => MessageView::Login {
                id: id@,
                email: email@,
                password: password@,
            },
            Message::NoOp { id } => MessageView::NoOp { id: id@ },
            Message::End => MessageView::End,
            Message::Unknown { id, command, args } => MessageView::Unknown {
                id: id@,
                command: command@,
                args: data_views(args@),
            },
            Message::Bad(raw) => MessageView::Bad(raw@),
        }
    }
}

/// `k` is the position of the first `c` in `s`.
pub open spec fn is_first_index(s: Seq<char>, c: char, k: int) -> bool {
    0 <= k < s.len() && s[k] == c && forall|j: int| 0 <= j < k ==> s[j] != c
}

/// The text before and after the first `c`, or `None` where `c` does not occur.
pub open spec fn split_once(s: Seq<char>, c: char) -> Option<(Seq<char>, Seq<char>)> {
    if exists|k: int| is_first_index(s, c, k) {
        let k = choose|k: int| is_first_index(s, c, k);
        Some((s.take(k), s.skip(k + 1)))
    } else {
        None
    }
}

pub proof fn lemma_first_index_unique(s: Seq<char>, c: char, k1: int, k2: int)
    requires
        is_first_index(s, c, k1),
        is_first_index(s, c, k2),
    ensures
        k1 == k2,
{
    if k1 < k2 {
        assert(s[k1] != c);
    } else if k2 < k1 {
        assert(s[k2] != c);
    }
}

/// The text before and after the first `c` in `s`.
pub fn split_once_char(s: &str, c: char) -> (r: Option<(String, String)>)
    ensures
        match split_once(s@, c) {
            Some(p) => r matches Some(q) && q.0@ == p.0 && q.1@ == p.1,
            None => r is None,
        },
{
    let len = s.unicode_len();
    let mut i: usize = 0;
    while i < len
        invariant
            i <= len,
            len == s@.len(),
            forall|j: int| 0 <= j < i ==> s@[j] != c,
        decreases len - i,
    {
        if s.get_char(i) == c {
            proof {
                assert(is_first_index(s@, c, i as int));
                let k = choose|k: int| is_first_index(s@, c, k);
                lemma_first_index_unique(s@, c, i as int, k);
            }
            let before = s.substring_char(0, i).to_owned();
            let after = s.substring_char(i + 1, len).to_owned();
            return Some((before, after));
        }
        i = i + 1;
    }
    None
}

/// Text of the command word.
pub open spec fn command_of(rest: Seq<char>) -> Seq<char> {
    match split_once(rest, ' ') {
        Some(p) => p.0,
        None => rest,
    }
}

/// Text of the arguments that follow the command word.
pub open spec fn args_of(rest: Seq<char>) -> Seq<char> {
    match split_once(rest, ' ') {
        Some(p) => p.1,
        None => Seq::empty(),
    }
}

/// What a line decodes to: the last two characters (the line terminator) are dropped;
/// the tag runs up to the first space, the command up to the next one, and the rest
/// are the arguments.
pub open spec fn parse_view(line: Seq<char>) -> MessageView {
    if line.len() <= 2 {
        MessageView::End
    } else {
        let body = line.take(line.len() - 2);
        match split_once(body, ' ') {
            None => MessageView::Bad(body),
            Some((id, rest)) => {
                let command = command_of(rest);
                let args = tokenize(args_of(rest));
                if command == "CAPABILITY"@ {
                    MessageView::Capability { id }
                } else if command == "LOGIN"@ {
                    if args.len() >= 2 {
                        MessageView::Login {
                            id,
                            email: data_text(args[0]),
                            password: data_text(args[1]),
                        }
                    } else {
                        MessageView::Bad(body)
                    }
                } else if command == "NOOP"@ {
                    MessageView::NoOp { id }
                } else {
                    MessageView::Unknown { id, command, args }
                }
            },
        }
    }
}

impl Message {
    /// Decodes one line of client input, terminator included. Never fails.
    pub fn parse(message: String) -> (r: Message)
        ensures
            r@ == parse_view(message@),
    {
        let len = message.as_str().unicode_len();
        if len <= 2 {
            return Message::End;
        }
        let body = message.as_str().substring_char(0, len - 2);
        let (id, rest) = match split_once_char(body, ' ') {
            Some(p) => p,
            None => {
                return Message::Bad(body.to_owned());
            },
        };
        let (command, args_str) = match split_once_char(rest.as_str(), ' ') {
            Some(p) => p,
            None => (rest, String::new()),
        };
        let args = Data::str_to_list(args_str.as_str());
        if command == "CAPABILITY".to_owned() {
            Message::Capability { id }
        } else if command == "LOGIN".to_owned() {
            if args.len() >= 2 {
                let email = args[0].to_string();
                let password = args[1].to_string();
                Message::Login { id, email, password }
            } else {
                Message::Bad(body.to_owned())
            }
        } else if command == "NOOP".to_owned() {
            Message::NoOp { id }
        } else {
            Message::Unknown { id, command, args }
        }
    }
}


/// A line that holds at most its two terminator characters decodes to `End`.
pub proof fn lemma_short_line_is_end(line: Seq<char>)
    requires
        line.len() <= 2,
    ensures
        parse_view(line) == MessageView::End,
{
}


/// The tokenizer's state after `s`, starting from `st`.
pub open spec fn scan_from(st: ScanState, s: Seq<char>) -> ScanState
    decreases s.len(),
{
    if s.len() == 0 {
        st
    } else {
        scan_step(scan_from(st, s.drop_last()), s.last())
    }
}

pub proof fn lemma_scan_append(a: Seq<char>, b: Seq<char>)
    ensures
        scan(a + b) == scan_from(scan(a), b),
    decreases b.len(),
{
    if b.len() == 0 {
        assert(a + b =~= a);
    } else {
        assert((a + b).drop_last() =~= a + b.drop_last());
        lemma_scan_append(a, b.drop_last());
    }
}

/// Inside quotes, text without a quote only accumulates.
pub proof fn lemma_scan_quoted(st: ScanState, u: Seq<char>)
    requires
        st.2,
        forall|i: int| 0 <= i < u.len() ==> u[i] != '"',
    ensures
        scan_from(st, u) == (st.0, st.1 + u, true),
    decreases u.len(),
{
    if u.len() == 0 {
        assert(st.1 + u =~= st.1);
    } else {
        lemma_scan_quoted(st, u.drop_last());
        assert(st.1 + u.drop_last() + seq![u.last()] =~= st.1 + u);
        assert((st.1 + u.drop_last()).push(u.last()) =~= st.1 + u);
    }
}

pub open spec fn quoted(s: Seq<char>) -> Seq<char> {
    seq!['"'] + s + seq!['"']
}

pub open spec fn has_no_quote(s: Seq<char>) -> bool {
    forall|i: int| 0 <= i < s.len() ==> s[i] != '"'
}

proof fn lemma_scan_one_quoted(st: ScanState, u: Seq<char>)
    requires
        !st.2,
        st.1.len() == 0,
        has_no_quote(u),
    ensures
        scan_from(st, quoted(u)) == (st.0.push(DataView::Quoted(u)), Seq::<char>::empty(), false),
{
    let open = seq!['"'];
    let st1 = scan_from(st, open);
    assert(open.drop_last() =~= Seq::<char>::empty());
    assert(scan_from(st, open.drop_last()) == st);
    assert(st1 == scan_step(st, '"'));
    assert(st1 == (st.0, st.1, true));
    lemma_scan_from_append(st, open, u);
    lemma_scan_quoted(st1, u);
    assert(st.1 + u =~= u);
    lemma_scan_from_append(st, open + u, seq!['"']);
    assert(seq!['"'].drop_last() =~= Seq::<char>::empty());
    let st2 = scan_from(st, open + u);
    assert(scan_from(st2, seq!['"'].drop_last()) == st2);
    assert(scan_from(st2, seq!['"']) == scan_step(st2, '"'));
    assert(open + u + seq!['"'] =~= quoted(u));
}

pub proof fn lemma_scan_from_append(st: ScanState, a: Seq<char>, b: Seq<char>)
    ensures
        scan_from(st, a + b) == scan_from(scan_from(st, a), b),
    decreases b.len(),
{
    if b.len() == 0 {
        assert(a + b =~= a);
    } else {
        assert((a + b).drop_last() =~= a + b.drop_last());
        lemma_scan_from_append(st, a, b.drop_last());
    }
}

/// Two quoted arguments decode to exactly those two texts.
pub proof fn lemma_tokenize_two_quoted(user: Seq<char>, pass: Seq<char>)
    requires
        has_no_quote(user),
        has_no_quote(pass),
    ensures
        tokenize(quoted(user) + seq![' '] + quoted(pass)) == seq![
            DataView::Quoted(user),
            DataView::Quoted(pass),
        ],
{
    let st0: ScanState = (Seq::empty(), Seq::empty(), false);
    let s = quoted(user) + seq![' '] + quoted(pass);
    assert(scan(Seq::<char>::empty()) == st0);
    lemma_scan_append(Seq::<char>::empty(), s);
    assert(Seq::<char>::empty() + s =~= s);
    lemma_scan_from_append(st0, quoted(user) + seq![' '], quoted(pass));
    lemma_scan_from_append(st0, quoted(user), seq![' ']);
    lemma_scan_one_quoted(st0, user);
    let st1 = scan_from(st0, quoted(user));
    assert(seq![' '].drop_last() =~= Seq::<char>::empty());
    let st2 = scan_from(st1, seq![' ']);
    assert(scan_from(st1, seq![' '].drop_last()) == st1);
    assert(st2 == scan_step(st1, ' '));
    assert(st2 == st1);
    lemma_scan_one_quoted(st2, pass);
    assert(scan(s).0 =~= seq![DataView::Quoted(user), DataView::Quoted(pass)]);
}

/// A line `<tag> LOGIN "<user>" "<pass>"`, with the terminator, decodes to a login with
/// that tag, user and password.
pub proof fn lemma_quoted_login(tag: Seq<char>, user: Seq<char>, pass: Seq<char>)
    requires
        forall|i: int| 0 <= i < tag.len() ==> tag[i] != ' ',
        has_no_quote(user),
        has_no_quote(pass),
    ensures
        parse_view(tag + " LOGIN "@ + quoted(user) + seq![' '] + quoted(pass) + "\r\n"@)
            == (MessageView::Login { id: tag, email: user, password: pass }),
{
    reveal_strlit(" LOGIN ");
    reveal_strlit("\r\n");
    reveal_strlit("LOGIN");
    reveal_strlit("CAPABILITY");
    let args = quoted(user) + seq![' '] + quoted(pass);
    let rest = "LOGIN"@ + seq![' '] + args;
    let body = tag + seq![' '] + rest;
    let line = tag + " LOGIN "@ + quoted(user) + seq![' '] + quoted(pass) + "\r\n"@;
    assert(line.take(line.len() - 2) =~= body);
    assert(is_first_index(body, ' ', tag.len() as int));
    let k = choose|k: int| is_first_index(body, ' ', k);
    lemma_first_index_unique(body, ' ', k, tag.len() as int);
    assert(body.take(tag.len() as int) =~= tag);
    assert(body.skip(tag.len() as int + 1) =~= rest);
    assert(is_first_index(rest, ' ', 5));
    let k2 = choose|k: int| is_first_index(rest, ' ', k);
    lemma_first_index_unique(rest, ' ', k2, 5);
    assert(rest.take(5) =~= "LOGIN"@);
    assert(rest.skip(6) =~= args);
    lemma_tokenize_two_quoted(user, pass);
    assert("LOGIN"@ != "CAPABILITY"@);
}


/// Every line decodes: to `End` exactly when it holds at most its two terminator
/// characters, and otherwise, where it has no tag or its command word is not one that
/// is understood, to `Bad` or `Unknown`.
pub proof fn lemma_parse_degrades(line: Seq<char>)
    ensures
        parse_view(line) is End <==> line.len() <= 2,
        line.len() > 2 ==> match split_once(line.take(line.len() - 2), ' ') {
            None => parse_view(line) is Bad,
            Some((_, rest)) => command_of(rest) != "CAPABILITY"@ && command_of(rest) != "LOGIN"@
                && command_of(rest) != "NOOP"@ ==> parse_view(line) is Unknown,
        },
{
}

} // verus!
