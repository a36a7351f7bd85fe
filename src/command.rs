use vstd::prelude::*;
use vstd::string::*;
use vstd::utf8::*;

use crate::codec::{
    array_frame, decode_request, lemma_request_round_trip, lemma_split_after_space,
    lemma_split_no_space, request_frame, request_outcome, split_spaces,
    utf8_tokens, Decoding, RequestDecode,
};
use crate::decimal::{decimal, decimal_digits, lemma_decimal_digits, parse_unsigned, unsigned_at_most};
use crate::text::{
    ascii_upper, lemma_ascii_bytes_utf8, lemma_encode_utf8_concat, lemma_no_space_encoding,
    to_upper, upper, utf8_text,
};

verus! {

/// A request that a client or a master sends.
#[derive(Debug)]
pub enum Command {
    PING,
    ECHO(String),
    /// Key, value and an optional time to live in milliseconds
    SET(String, String, Option<u64>),
    GET(String),
    INFO(String),
    /// Either a bare probe or a `(field, value)` pair
    REPLCONF(Option<(String, String)>),
    /// Replication id and offset, as sent
    PSYNC(String, String),
}

/// The value of a [`Command`], its texts as character sequences.
pub enum CommandView {
    Ping,
    Echo(Seq<char>),
    SetValue(Seq<char>, Seq<char>, Option<u64>),
    GetValue(Seq<char>),
    Info(Seq<char>),
    ReplConf(Option<(Seq<char>, Seq<char>)>),
    Psync(Seq<char>, Seq<char>),
}

impl View for Command {
    type V = CommandView;

    open spec fn view(&self) -> CommandView {
        match self {
            Command::PING => CommandView::Ping,
            Command::ECHO(t) => CommandView::Echo(t@),
            Command::SET(k, v, ttl) => CommandView::SetValue(k@, v@, *ttl),
            Command::GET(k) => CommandView::GetValue(k@),
            Command::INFO(s) => CommandView::Info(s@),
            Command::REPLCONF(None) => CommandView::ReplConf(None),
            Command::REPLCONF(Some((f, v))) => CommandView::ReplConf(Some((f@, v@))),
            Command::PSYNC(id, offset) => CommandView::Psync(id@, offset@),
        }
    }
}

/// Why a request could not become a command.
#[derive(Debug, Clone, Copy, PartialEq, Eq, Structural)]
pub enum CommandError {
    /// The bytes do not form a request frame
    ProtocolError,
    /// A known command with missing or malformed arguments
    ParseError,
    /// A leading token that names no command
    UnknownCommand,
}

pub open spec fn kw_ping() -> Seq<char> {
    seq!['P', 'I', 'N', 'G']
}

pub open spec fn kw_echo() -> Seq<char> {
    seq!['E', 'C', 'H', 'O']
}

pub open spec fn kw_set() -> Seq<char> {
    seq!['S', 'E', 'T']
}

pub open spec fn kw_get() -> Seq<char> {
    seq!['G', 'E', 'T']
}

pub open spec fn kw_info() -> Seq<char> {
    seq!['I', 'N', 'F', 'O']
}

pub open spec fn kw_replconf() -> Seq<char> {
    seq!['R', 'E', 'P', 'L', 'C', 'O', 'N', 'F']
}

pub open spec fn kw_psync() -> Seq<char> {
    seq!['P', 'S', 'Y', 'N', 'C']
}

pub open spec fn kw_px() -> Seq<char> {
    seq!['P', 'X']
}

/// The time to live of a `SET`: the token read as an unsigned decimal that fits in a `u64`.
pub open spec fn ttl_of(t: Seq<char>) -> Option<u64> {
    match unsigned_at_most(encode_utf8(t), u64::MAX as nat) {
        Some(v) => Some(v as u64),
        None => None,
    }
}

/// The command that a token array stands for. The first token names it, in any case; a
/// `SET` of exactly five tokens whose fourth is `PX` in any case carries a time to live.
/// Tokens past the ones a command reads are ignored.
pub open spec fn parse_tokens(ts: Seq<Seq<char>>) -> Result<CommandView, CommandError> {
    if ts.len() == 0 {
        Err(CommandError::UnknownCommand)
    } else {
        let head = upper(ts[0]);
        if head == kw_ping() {
            Ok(CommandView::Ping)
        } else if head == kw_echo() {
            if ts.len() >= 2 {
                Ok(CommandView::Echo(ts[1]))
            } else {
                Err(CommandError::ParseError)
            }
        } else if head == kw_set() {
            if ts.len() < 3 {
                Err(CommandError::ParseError)
            } else if ts.len() == 5 && upper(ts[3]) == kw_px() {
                match ttl_of(ts[4]) {
                    Some(ttl) => Ok(CommandView::SetValue(ts[1], ts[2], Some(ttl))),
                    None => Err(CommandError::ParseError),
                }
            } else {
                Ok(CommandView::SetValue(ts[1], ts[2], None))
            }
        } else if head == kw_get() {
            if ts.len() >= 2 {
                Ok(CommandView::GetValue(ts[1]))
            } else {
                Err(CommandError::ParseError)
            }
        } else if head == kw_info() {
            if ts.len() >= 2 {
                Ok(CommandView::Info(ts[1]))
            } else {
                Err(CommandError::ParseError)
            }
        } else if head == kw_replconf() {
            if ts.len() == 1 {
                Ok(CommandView::ReplConf(None))
            } else if ts.len() >= 3 {
                Ok(CommandView::ReplConf(Some((ts[1], ts[2]))))
            } else {
                Err(CommandError::ParseError)
            }
        } else if head == kw_psync() {
            if ts.len() >= 3 {
                Ok(CommandView::Psync(ts[1], ts[2]))
            } else {
                Err(CommandError::ParseError)
            }
        } else {
            Err(CommandError::UnknownCommand)
        }
    }
}

/// The value of a parse result.
pub open spec fn result_view(r: Result<Command, CommandError>) -> Result<CommandView, CommandError> {
    match r {
        Ok(c) => Ok(c@),
        Err(e) => Err(e),
    }
}

/// The command that a request frame at the start of `text` stands for.
pub open spec fn parse_frame_text(text: Seq<char>) -> Result<CommandView, CommandError> {
    match request_outcome(encode_utf8(text)) {
        Decoding::Frame(ts, _) => parse_tokens(ts),
        _ => Err(CommandError::ProtocolError),
    }
}

/// Whether two texts are equal, compared byte by byte.
pub(crate) fn same_text(a: &str, b: &str) -> (r: bool)
    ensures
        r == (a@ == b@),
{
    let x = a.as_bytes();
    let y = b.as_bytes();
    proof {
        encode_utf8_decode_utf8(a@);
        encode_utf8_decode_utf8(b@);
    }
    if x.len() != y.len() {
        return false;
    }
    let mut i: usize = 0;
    while i < x.len()
        invariant
            i <= x@.len(),
            x@.len() == y@.len(),
            x@ == encode_utf8(a@),
            y@ == encode_utf8(b@),
            x@.subrange(0, i as int) == y@.subrange(0, i as int),
        decreases x.len() - i,
    {
        if x[i] != y[i] {
            assert(x@ != y@) by {
                assert(x@[i as int] != y@[i as int]);
            }
            return false;
        }
        assert(x@.subrange(0, i + 1) == x@.subrange(0, i as int).push(x@[i as int]));
        assert(y@.subrange(0, i + 1) == y@.subrange(0, i as int).push(y@[i as int]));
        i = i + 1;
    }
    assert(x@ == x@.subrange(0, x@.len() as int));
    assert(y@ == y@.subrange(0, y@.len() as int));
    true
}

/// Parses a token array into a command; the first token and the `PX` clause are matched
/// in any case.
pub fn parse_to_cmd(arr: Vec<&str>) -> (r: Result<Command, CommandError>)
    ensures
        result_view(r) == parse_tokens(arr@.map_values(|s: &str| s@)),
{
    let ghost ts = arr@.map_values(|s: &str| s@);
    if arr.len() == 0 {
        return Err(CommandError::UnknownCommand);
    }
    let head = to_upper(arr[0]);
    let head = head.as_str();
    proof {
        reveal_strlit("PING");
        reveal_strlit("ECHO");
        reveal_strlit("SET");
        reveal_strlit("GET");
        reveal_strlit("INFO");
        reveal_strlit("REPLCONF");
        reveal_strlit("PSYNC");
        reveal_strlit("PX");
        assert(head@ == upper(ts[0]));
        assert("PING"@ == kw_ping());
        assert("ECHO"@ == kw_echo());
        assert("SET"@ == kw_set());
        assert("GET"@ == kw_get());
        assert("INFO"@ == kw_info());
        assert("REPLCONF"@ == kw_replconf());
        assert("PSYNC"@ == kw_psync());
        assert("PX"@ == kw_px());
    }
    if same_text(head, "PING") {
        Ok(Command::PING)
    } else if same_text(head, "ECHO") {
        if arr.len() < 2 {
            return Err(CommandError::ParseError);
        }
        Ok(Command::ECHO(arr[1].to_owned()))
    } else if same_text(head, "SET") {
        if arr.len() < 3 {
            return Err(CommandError::ParseError);
        }
        let key = arr[1].to_owned();
        let value = arr[2].to_owned();
        if arr.len() == 5 {
            let fourth = to_upper(arr[3]);
            assert(fourth@ == upper(ts[3]));
            if same_text(fourth.as_str(), "PX") {
                return match parse_unsigned(arr[4].as_bytes()) {
                    Some(ttl) => Ok(Command::SET(key, value, Some(ttl))),
                    None => Err(CommandError::ParseError),
                };
            }
        }
        Ok(Command::SET(key, value, None))
    } else if same_text(head, "GET") {
        if arr.len() < 2 {
            return Err(CommandError::ParseError);
        }
        Ok(Command::GET(arr[1].to_owned()))
    } else if same_text(head, "INFO") {
        if arr.len() < 2 {
            return Err(CommandError::ParseError);
        }
        Ok(Command::INFO(arr[1].to_owned()))
    } else if same_text(head, "REPLCONF") {
        if arr.len() == 1 {
            Ok(Command::REPLCONF(None))
        } else if arr.len() >= 3 {
            Ok(Command::REPLCONF(Some((arr[1].to_owned(), arr[2].to_owned()))))
        } else {
            Err(CommandError::ParseError)
        }
    } else if same_text(head, "PSYNC") {
        if arr.len() < 3 {
            return Err(CommandError::ParseError);
        }
        Ok(Command::PSYNC(arr[1].to_owned(), arr[2].to_owned()))
    } else {
        Err(CommandError::UnknownCommand)
    }
}

/// Reads the token array of a request frame written as text; `ProtocolError` when the
/// text does not start with a whole frame.
pub fn parse_command_array(command: &str) -> (r: Result<Vec<String>, CommandError>)
    ensures
        match request_outcome(encode_utf8(command@)) {
            Decoding::Frame(ts, _) => r matches Ok(v) && v@.map_values(|s: String| s@) == ts,
            _ => r == Err::<Vec<String>, CommandError>(CommandError::ProtocolError),
        },
{
    match decode_request(command.as_bytes()) {
        RequestDecode::Complete(tokens, _) => Ok(tokens),
        _ => Err(CommandError::ProtocolError),
    }
}

/// The decimal text of `n`, as characters.
pub open spec fn decimal_chars(n: nat) -> Seq<char> {
    decimal(n).map_values(|b: u8| b as char)
}

/// The tokens that a command is written as.
pub open spec fn command_tokens(c: CommandView) -> Seq<Seq<char>> {
    match c {
        CommandView::Ping => seq![kw_ping()],
        CommandView::Echo(t) => seq![kw_echo(), t],
        CommandView::SetValue(k, v, None) => seq![kw_set(), k, v],
        CommandView::SetValue(k, v, Some(ttl)) => seq![
            kw_set(),
            k,
            v,
            kw_px(),
            decimal_chars(ttl as nat),
        ],
        CommandView::GetValue(k) => seq![kw_get(), k],
        CommandView::Info(s) => seq![kw_info(), s],
        CommandView::ReplConf(None) => seq![kw_replconf()],
        CommandView::ReplConf(Some((f, v))) => seq![kw_replconf(), f, v],
        CommandView::Psync(id, offset) => seq![kw_psync(), id, offset],
    }
}

/// Tokens joined by single spaces.
pub open spec fn join_spaces(ts: Seq<Seq<char>>) -> Seq<char>
    decreases ts.len(),
{
    if ts.len() == 0 {
        Seq::empty()
    } else if ts.len() == 1 {
        ts[0]
    } else {
        join_spaces(ts.drop_last()) + seq![' '] + ts.last()
    }
}

/// The canonical text of a command: its tokens joined by single spaces.
pub open spec fn render(c: CommandView) -> Seq<char> {
    join_spaces(command_tokens(c))
}

pub(crate) fn decimal_text(n: u64) -> (r: String)
    ensures
        r@ == decimal_chars(n as nat),
{
    let digits = decimal_digits(n);
    proof {
        lemma_decimal_digits(n as nat);
        lemma_ascii_bytes_utf8(digits@);
        assert(decode_utf8(digits@) =~= decimal_chars(n as nat));
    }
    match utf8_text(digits) {
        Some(s) => s,
        None => String::new(),
    }
}

fn push_token(out: &mut String, token: &str)
    ensures
        final(out)@ == old(out)@ + seq![' '] + token@,
{
    proof {
        reveal_strlit(" ");
    }
    out.append(" ");
    out.append(token);
}

impl Command {
    /// The canonical text of the command, which parses back to it.
    pub fn to_string(&self) -> (r: String)
        ensures
            r@ == render(self@),
    {
        proof {
            reveal_strlit("PING");
            reveal_strlit("ECHO");
            reveal_strlit("SET");
            reveal_strlit("GET");
            reveal_strlit("INFO");
            reveal_strlit("REPLCONF");
            reveal_strlit("PSYNC");
            reveal_strlit("PX");
            reveal_with_fuel(join_spaces, 6);
        }
        match self {
            Command::PING => String::from_str("PING"),
            Command::ECHO(content) => {
                let mut out = String::from_str("ECHO");
                push_token(&mut out, content.as_str());
                out
            },
            Command::SET(key, value, ttl) => {
                let mut out = String::from_str("SET");
                push_token(&mut out, key.as_str());
                push_token(&mut out, value.as_str());
                if let Some(ttl) = ttl {
                    push_token(&mut out, "PX");
                    let digits = decimal_text(*ttl);
                    push_token(&mut out, digits.as_str());
                }
                out
            },
            Command::GET(key) => {
                let mut out = String::from_str("GET");
                push_token(&mut out, key.as_str());
                out
            },
            Command::INFO(section) => {
                let mut out = String::from_str("INFO");
                push_token(&mut out, section.as_str());
                out
            },
            Command::REPLCONF(content) => {
                let mut out = String::from_str("REPLCONF");
                if let Some((field, value)) = content {
                    push_token(&mut out, field.as_str());
                    push_token(&mut out, value.as_str());
                }
                out
            },
            Command::PSYNC(replid, offset) => {
                let mut out = String::from_str("PSYNC");
                push_token(&mut out, replid.as_str());
                push_token(&mut out, offset.as_str());
                out
            },
        }
    }

    /// Parses a command from the text of a request frame.
    pub fn new(command: String) -> (r: Result<Command, CommandError>)
        ensures
            result_view(r) == parse_frame_text(command@),
    {
        let tokens = parse_command_array(command.as_str())?;
        let mut arr: Vec<&str> = Vec::new();
        let mut i: usize = 0;
        while i < tokens.len()
            invariant
                i <= tokens@.len(),
                arr@.len() == i,
                forall|j: int| 0 <= j < i ==> (#[trigger] arr@[j])@ == tokens@[j]@,
            decreases tokens.len() - i,
        {
            arr.push(tokens[i].as_str());
            i = i + 1;
        }
        assert(arr@.map_values(|s: &str| s@) =~= tokens@.map_values(|s: String| s@));
        parse_to_cmd(arr)
    }
}

/// Whether a text holds no space character.
pub open spec fn no_space(t: Seq<char>) -> bool {
    forall|i: int| 0 <= i < t.len() ==> #[trigger] t[i] != ' '
}

/// The texts that a command carries as arguments.
pub open spec fn text_fields(c: CommandView) -> Seq<Seq<char>> {
    match c {
        CommandView::Ping => Seq::empty(),
        CommandView::Echo(t) => seq![t],
        CommandView::SetValue(k, v, _) => seq![k, v],
        CommandView::GetValue(k) => seq![k],
        CommandView::Info(s) => seq![s],
        CommandView::ReplConf(None) => Seq::empty(),
        CommandView::ReplConf(Some((f, v))) => seq![f, v],
        CommandView::Psync(id, offset) => seq![id, offset],
    }
}

proof fn lemma_keyword(k: Seq<char>)
    requires
        forall|i: int| 0 <= i < k.len() ==> 'A' <= #[trigger] k[i] <= 'Z',
    ensures
        upper(k) == k,
        no_space(k),
        encode_utf8(k).len() == k.len(),
{
    assert(is_ascii_chars(k));
    is_ascii_chars_encode_utf8(k);
    assert(ascii_upper(k) =~= k);
}

proof fn lemma_decimal_token(n: nat)
    ensures
        no_space(decimal_chars(n)),
        encode_utf8(decimal_chars(n)) == decimal(n),
        ttl_of(decimal_chars(n)) == (if n <= u64::MAX {
            Some(n as u64)
        } else {
            None
        }),
{
    lemma_decimal_digits(n);
    let d = decimal_chars(n);
    assert forall|i: int| 0 <= i < d.len() implies #[trigger] d[i] != ' ' by {
        assert(48 <= decimal(n)[i] <= 57);
    }
    assert(is_ascii_chars(d));
    is_ascii_chars_encode_utf8(d);
    assert(encode_utf8(d) =~= decimal(n));
}

proof fn lemma_join_split(ts: Seq<Seq<char>>)
    requires
        ts.len() >= 1,
        forall|i: int| 0 <= i < ts.len() ==> no_space(#[trigger] ts[i]),
    ensures
        split_spaces(encode_utf8(join_spaces(ts))) == utf8_tokens(ts),
    decreases ts.len(),
{
    if ts.len() == 1 {
        lemma_no_space_encoding(ts[0]);
        lemma_split_no_space(encode_utf8(ts[0]));
        assert(utf8_tokens(ts) =~= seq![encode_utf8(ts[0])]);
    } else {
        let init = ts.drop_last();
        assert forall|i: int| 0 <= i < init.len() implies no_space(#[trigger] init[i]) by {
            assert(init[i] == ts[i]);
        }
        lemma_join_split(init);
        let j = join_spaces(init);
        lemma_encode_utf8_concat(j + seq![' '], ts.last());
        lemma_encode_utf8_concat(j, seq![' ']);
        assert(encode_utf8(seq![' ']) =~= seq![32u8]) by {
            assert(is_ascii_chars(seq![' ']));
            is_ascii_chars_encode_utf8(seq![' ']);
        }
        lemma_no_space_encoding(ts.last());
        lemma_split_after_space(encode_utf8(j), encode_utf8(ts.last()));
        assert(utf8_tokens(init).push(encode_utf8(ts.last())) =~= utf8_tokens(ts));
    }
}

/// A command sent on, as a replica receives it, parses back to itself: the canonical text of
/// any command whose argument texts hold no space (and fit in a request), written as a
/// request frame, reads back as exactly the command's tokens, and those tokens parse to the
/// same command.
pub proof fn lemma_render_parse_round_trip(c: CommandView)
    requires
        forall|i: int|
            0 <= i < text_fields(c).len() ==> no_space(#[trigger] text_fields(c)[i]) && encode_utf8(
                text_fields(c)[i],
            ).len() <= usize::MAX,
    ensures
        request_outcome(request_frame(render(c))) == Decoding::Frame(
            command_tokens(c),
            request_frame(render(c)).len() as int,
        ),
        parse_tokens(command_tokens(c)) == Ok::<CommandView, CommandError>(c),
{
    let ts = command_tokens(c);
    let fs = text_fields(c);
    lemma_keyword(kw_ping());
    lemma_keyword(kw_echo());
    lemma_keyword(kw_set());
    lemma_keyword(kw_get());
    lemma_keyword(kw_info());
    lemma_keyword(kw_replconf());
    lemma_keyword(kw_psync());
    lemma_keyword(kw_px());
    assert(kw_ping() != kw_echo());
    assert(kw_ping() != kw_set());
    assert(kw_echo() != kw_set());
    assert(kw_set() != kw_get());
    assert(kw_ping() != kw_get());
    assert(kw_echo() != kw_get());
    assert(kw_info() != kw_ping() && kw_info() != kw_echo() && kw_info() != kw_set() && kw_info()
        != kw_get());
    assert(kw_replconf() != kw_ping() && kw_replconf() != kw_echo() && kw_replconf() != kw_set()
        && kw_replconf() != kw_get() && kw_replconf() != kw_info());
    assert(kw_psync() != kw_ping() && kw_psync() != kw_echo() && kw_psync() != kw_set()
        && kw_psync() != kw_get() && kw_psync() != kw_info() && kw_psync() != kw_replconf());
    if let CommandView::SetValue(_, _, Some(ttl)) = c {
        lemma_decimal_token(ttl as nat);
        lemma_decimal_digits(ttl as nat);
        assert(decimal(ttl as nat).len() <= usize::MAX) by {
            reveal_with_fuel(pow10, 21);
            lemma_decimal_length(ttl as nat, 20);
        }
    }
    assert forall|i: int| 0 <= i < ts.len() implies no_space(#[trigger] ts[i]) && encode_utf8(
        ts[i],
    ).len() <= usize::MAX by {
        if i >= 1 {
            match c {
                CommandView::SetValue(_, _, Some(ttl)) => {
                    if i <= 2 {
                        assert(ts[i] == fs[i - 1]);
                    }
                },
                _ => {
                    assert(ts[i] == fs[i - 1]);
                },
            }
        }
    }
    lemma_join_split(ts);
    lemma_request_round_trip(ts, Seq::empty());
    assert(array_frame(utf8_tokens(ts)) + Seq::<u8>::empty() == array_frame(utf8_tokens(ts)));
}

spec fn pow10(k: nat) -> nat
    decreases k,
{
    if k == 0 {
        1
    } else {
        10 * pow10((k - 1) as nat)
    }
}

proof fn lemma_decimal_length(n: nat, k: nat)
    requires
        n < pow10(k),
        k >= 1,
    ensures
        decimal(n).len() <= k,
    decreases k,
{
    if n >= 10 {
        let p = pow10((k - 1) as nat);
        assert(n / 10 < p) by (nonlinear_arith)
            requires
                n < 10 * p,
        ;
        if k == 1 {
            assert(pow10(0) == 1);
        } else {
            lemma_decimal_length(n / 10, (k - 1) as nat);
        }
    }
}

} // verus!
