use vstd::prelude::*;

use crate::code::{decimal, digit_char, push_decimal};
use crate::file_type::FileType;
use crate::text::{
    all_digits, digits_value, is_digit, is_ws, join, lemma_pieces_nonempty, lemma_pieces_prefix, parse_unsigned, pieces, token_bounds,
    tokens, unsigned_of,
};

verus! {

/// An IPv4 address and a port.
#[derive(Debug, Clone, Copy, PartialEq, Eq, Structural)]
pub struct SocketAddress {
    /// The four octets of the IPv4 address, first to last.
    pub a: u8,
    pub b: u8,
    pub c: u8,
    pub d: u8,
    pub port: u16,
}

/// `a.b.c.d:port`.
pub open spec fn address_text(a: SocketAddress) -> Seq<char> {
    decimal(a.a as nat) + "."@ + decimal(a.b as nat) + "."@ + decimal(a.c as nat) + "."@
        + decimal(a.d as nat) + ":"@ + decimal(a.port as nat)
}

impl SocketAddress {
    /// The address as `a.b.c.d:port`.
    pub fn to_string(&self) -> (r: String)
        ensures
            r@ == address_text(*self),
    {
        let mut out = String::new();
        push_decimal(&mut out, self.a as u32);
        out.append(".");
        push_decimal(&mut out, self.b as u32);
        out.append(".");
        push_decimal(&mut out, self.c as u32);
        out.append(".");
        push_decimal(&mut out, self.d as u32);
        out.append(":");
        push_decimal(&mut out, self.port as u32);
        assert(out@ =~= address_text(*self));
        out
    }
}

/// Why a command line could not be decoded.
#[derive(Debug, Clone, Copy, PartialEq, Eq, Structural)]
pub enum ParseError {
    /// The line holds no verb at all.
    Empty,
    /// `TYPE` with a code other than `A`, `E`, `I`, `N`, `T`.
    InvalidFileType,
    /// A `PORT` field that is not a decimal number in 0..=255.
    InvalidPortNumber,
    /// A `PORT` argument that does not hold exactly six fields.
    InvalidPortCount,
    /// An `ALLO` or `REST` argument that is not a decimal `u64`.
    InvalidNumber,
}

/// One decoded command. `T` is the type of its text arguments: `String` for
/// commands in hand, `Seq<char>` for their mathematical model.
#[derive(Debug)]
pub enum FtpCommand<T = String> {
    USER(T),
    PASS(T),
    QUIT,
    ABOR,
    CWD(T),
    CDUP,
    DELE(T),
    LIST(Option<T>),
    NLIST(Option<T>),
    MKD(T),
    PWD,
    RMD(T),
    RNFR(T),
    RNTO(T),
    TYPE(FileType),
    PORT(SocketAddress),
    PASV,
    RETR(T),
    STOR(T),
    STOU(T),
    ALLO(u64),
    STAT(Option<T>),
    REST(u64),
    NOOP,
    SYST,
}

pub open spec fn opt_view(o: Option<String>) -> Option<Seq<char>> {
    match o {
        Some(s) => Some(s@),
        None => None,
    }
}

impl View for FtpCommand {
    type V = FtpCommand<Seq<char>>;

    open spec fn view(&self) -> FtpCommand<Seq<char>> {
        match self {
            FtpCommand::USER(a) => FtpCommand::USER(a@),
            FtpCommand::PASS(a) => FtpCommand::PASS(a@),
            FtpCommand::QUIT => FtpCommand::QUIT,
            FtpCommand::ABOR => FtpCommand::ABOR,
            FtpCommand::CWD(a) => FtpCommand::CWD(a@),
            FtpCommand::CDUP => FtpCommand::CDUP,
            FtpCommand::DELE(a) => FtpCommand::DELE(a@),
            FtpCommand::LIST(a) => FtpCommand::LIST(opt_view(*a)),
            FtpCommand::NLIST(a) => FtpCommand::NLIST(opt_view(*a)),
            FtpCommand::MKD(a) => FtpCommand::MKD(a@),
            FtpCommand::PWD => FtpCommand::PWD,
            FtpCommand::RMD(a) => FtpCommand::RMD(a@),
            FtpCommand::RNFR(a) => FtpCommand::RNFR(a@),
            FtpCommand::RNTO(a) => FtpCommand::RNTO(a@),
            FtpCommand::TYPE(t) => FtpCommand::TYPE(*t),
            FtpCommand::PORT(p) => FtpCommand::PORT(*p),
            FtpCommand::PASV => FtpCommand::PASV,
            FtpCommand::RETR(a) => FtpCommand::RETR(a@),
            FtpCommand::STOR(a) => FtpCommand::STOR(a@),
            FtpCommand::STOU(a) => FtpCommand::STOU(a@),
            FtpCommand::ALLO(n) => FtpCommand::ALLO(*n),
            FtpCommand::STAT(a) => FtpCommand::STAT(opt_view(*a)),
            FtpCommand::REST(n) => FtpCommand::REST(*n),
            FtpCommand::NOOP => FtpCommand::NOOP,
            FtpCommand::SYST => FtpCommand::SYST,
        }
    }
}

pub open spec fn result_view(r: Result<FtpCommand, ParseError>) -> Result<
    FtpCommand<Seq<char>>,
    ParseError,
> {
    match r {
        Ok(c) => Ok(c@),
        Err(e) => Err(e),
    }
}

/// The file type that a `TYPE` code names.
pub open spec fn file_type_of(code: Seq<char>) -> Option<FileType> {
    if code == "A"@ {
        Some(FileType::Ascii)
    } else if code == "E"@ {
        Some(FileType::Ebcdic)
    } else if code == "I"@ {
        Some(FileType::Image)
    } else if code == "N"@ {
        Some(FileType::NoPrint)
    } else if code == "T"@ {
        Some(FileType::Telnet)
    } else {
        None
    }
}

/// The value of the `k`-th field of a `PORT` argument.
pub open spec fn port_field(ps: Seq<Seq<char>>, k: int) -> nat {
    unsigned_of(ps[k], 255)->0
}

/// A `PORT` argument `h1,h2,h3,h4,p1,p2`: address `h1.h2.h3.h4`, port `p1*256+p2`.
pub open spec fn port_of(args: Seq<char>) -> Result<SocketAddress, ParseError> {
    let ps = pieces(args);
    if exists|k: int| 0 <= k < ps.len() && (#[trigger] unsigned_of(ps[k], 255)) is None {
        Err(ParseError::InvalidPortNumber)
    } else if ps.len() != 6 {
        Err(ParseError::InvalidPortCount)
    } else {
        Ok(
            SocketAddress {
                a: port_field(ps, 0) as u8,
                b: port_field(ps, 1) as u8,
                c: port_field(ps, 2) as u8,
                d: port_field(ps, 3) as u8,
                port: (port_field(ps, 4) * 256 + port_field(ps, 5)) as u16,
            },
        )
    }
}

/// An argument that may be left out: empty means absent.
pub open spec fn optional(args: Seq<char>) -> Option<Seq<char>> {
    if args.len() == 0 {
        None
    } else {
        Some(args)
    }
}

/// The command that `verb` with argument text `args` stands for.
pub open spec fn command_of(verb: Seq<char>, args: Seq<char>) -> Result<
    FtpCommand<Seq<char>>,
    ParseError,
> {
    if verb == "USER"@ {
        Ok(FtpCommand::USER(args))
    } else if verb == "PASS"@ {
        Ok(FtpCommand::PASS(args))
    } else if verb == "QUIT"@ {
        Ok(FtpCommand::QUIT)
    } else if verb == "ABOR"@ {
        Ok(FtpCommand::ABOR)
    } else if verb == "CWD"@ {
        Ok(FtpCommand::CWD(args))
    } else if verb == "CDUP"@ {
        Ok(FtpCommand::CDUP)
    } else if verb == "DELE"@ {
        Ok(FtpCommand::DELE(args))
    } else if verb == "LIST"@ {
        Ok(FtpCommand::LIST(optional(args)))
    } else if verb == "NLIST"@ {
        Ok(FtpCommand::NLIST(optional(args)))
    } else if verb == "MKD"@ {
        Ok(FtpCommand::MKD(args))
    } else if verb == "PWD"@ {
        Ok(FtpCommand::PWD)
    } else if verb == "RMD"@ {
        Ok(FtpCommand::RMD(args))
    } else if verb == "RNFR"@ {
        Ok(FtpCommand::RNFR(args))
    } else if verb == "RNTO"@ {
        Ok(FtpCommand::RNTO(args))
    } else if verb == "TYPE"@ {
        match file_type_of(args) {
            Some(t) => Ok(FtpCommand::TYPE(t)),
            None => Err(ParseError::InvalidFileType),
        }
    } else if verb == "PORT"@ {
        match port_of(args) {
            Ok(a) => Ok(FtpCommand::PORT(a)),
            Err(e) => Err(e),
        }
    } else if verb == "PASV"@ {
        Ok(FtpCommand::PASV)
    } else if verb == "RETR"@ {
        Ok(FtpCommand::RETR(args))
    } else if verb == "STOR"@ {
        Ok(FtpCommand::STOR(args))
    } else if verb == "STOU"@ {
        Ok(FtpCommand::STOU(args))
    } else if verb == "ALLO"@ {
        match unsigned_of(args, u64::MAX as nat) {
            Some(n) => Ok(FtpCommand::ALLO(n as u64)),
            None => Err(ParseError::InvalidNumber),
        }
    } else if verb == "STAT"@ {
        Ok(FtpCommand::STAT(optional(args)))
    } else if verb == "REST"@ {
        match unsigned_of(args, u64::MAX as nat) {
            Some(n) => Ok(FtpCommand::REST(n as u64)),
            None => Err(ParseError::InvalidNumber),
        }
    } else if verb == "SYST"@ {
        Ok(FtpCommand::SYST)
    } else {
        Ok(FtpCommand::NOOP)
    }
}

/// A command line: its first token is the verb, the other tokens joined by
/// single spaces are the argument text.
pub open spec fn parse_line(line: Seq<char>) -> Result<FtpCommand<Seq<char>>, ParseError> {
    let ts = tokens(line);
    if ts.len() == 0 {
        Err(ParseError::Empty)
    } else {
        command_of(ts[0], join(ts.drop_first()))
    }
}

fn same_text(v: &String, lit: &str) -> (r: bool)
    ensures
        r == (v@ == lit@),
{
    let l = String::from_str(lit);
    v.eq(&l)
}

/// Decodes a `PORT` argument `h1,h2,h3,h4,p1,p2`.
pub fn parse_port(args: &str) -> (r: Result<SocketAddress, ParseError>)
    ensures
        r == port_of(args@),
{
    let ghost s = args@;
    let n = args.unicode_len();
    let mut vals: Vec<u8> = Vec::new();
    let mut start: usize = 0;
    let mut i: usize = 0;
    proof {
        assert(s.take(0) =~= Seq::<char>::empty());
        assert(s.subrange(0, 0) =~= Seq::<char>::empty());
    }
    while i < n
        invariant
            n == s.len(),
            s == args@,
            start <= i <= n,
            vals@.len() + 1 == pieces(s.take(i as int)).len(),
            pieces(s.take(i as int)).last() == s.subrange(start as int, i as int),
            forall|k: int|
                0 <= k < vals@.len() ==> unsigned_of(#[trigger] pieces(s.take(i as int))[k], 255)
                    == Some(vals@[k] as nat),
        decreases n - i,
    {
        let c = args.get_char(i);
        let ghost pre = s.take(i as int);
        let ghost cur = s.take(i + 1);
        proof {
            assert(cur.drop_last() =~= pre);
            assert(cur.last() == c);
            lemma_pieces_nonempty(pre);
        }
        if c == ',' {
            match parse_unsigned(args, start, i, 255) {
                None => {
                    proof {
                        lemma_pieces_prefix(s, i + 1);
                        let k = vals@.len() as int;
                        assert(pieces(cur)[k] == pieces(pre)[k]);
                        assert(unsigned_of(pieces(s)[k], 255) is None);
                    }
                    return Err(ParseError::InvalidPortNumber);
                },
                Some(v) => {
                    vals.push(v as u8);
                    start = i + 1;
                    assert(s.subrange(start as int, i + 1) =~= Seq::<char>::empty());
                    assert forall|k: int| 0 <= k < vals@.len() implies unsigned_of(
                        #[trigger] pieces(cur)[k],
                        255,
                    ) == Some(vals@[k] as nat) by {
                        assert(pieces(cur)[k] == pieces(pre)[k]);
                    }
                },
            }
        } else {
            assert(s.subrange(start as int, i + 1) =~= s.subrange(start as int, i as int).push(c));
            assert forall|k: int| 0 <= k < vals@.len() implies unsigned_of(
                #[trigger] pieces(cur)[k],
                255,
            ) == Some(vals@[k] as nat) by {
                assert(pieces(cur)[k] == pieces(pre)[k]);
            }
        }
        i = i + 1;
    }
    proof {
        assert(s.take(n as int) =~= s);
        lemma_pieces_nonempty(s);
    }
    match parse_unsigned(args, start, n, 255) {
        None => {
            assert(unsigned_of(pieces(s)[vals@.len() as int], 255) is None);
            return Err(ParseError::InvalidPortNumber);
        },
        Some(v) => {
            vals.push(v as u8);
        },
    }
    let ghost ps = pieces(s);
    assert forall|k: int| 0 <= k < ps.len() implies unsigned_of(#[trigger] ps[k], 255) == Some(
        vals@[k] as nat,
    ) by {}
    if vals.len() != 6 {
        return Err(ParseError::InvalidPortCount);
    }
    let port: u16 = vals[4] as u16 * 256 + vals[5] as u16;
    let r = SocketAddress { a: vals[0], b: vals[1], c: vals[2], d: vals[3], port };
    assert(port_field(ps, 4) == vals@[4] as nat);
    assert(port_field(ps, 5) == vals@[5] as nat);
    Ok(r)
}

fn optional_text(args: String) -> (r: Option<String>)
    ensures
        opt_view(r) == optional(args@),
{
    if args.as_str().unicode_len() == 0 {
        None
    } else {
        Some(args)
    }
}

fn parse_u64(args: &String) -> (r: Option<u64>)
    ensures
        r matches Some(v) ==> unsigned_of(args@, u64::MAX as nat) == Some(v as nat),
        r is None ==> unsigned_of(args@, u64::MAX as nat) is None,
{
    let a = args.as_str();
    let n = a.unicode_len();
    assert(a@.subrange(0, n as int) =~= args@);
    parse_unsigned(a, 0, n, u64::MAX)
}

fn file_type(code: &String) -> (r: Option<FileType>)
    ensures
        r == file_type_of(code@),
{
    if same_text(code, "A") {
        Some(FileType::Ascii)
    } else if same_text(code, "E") {
        Some(FileType::Ebcdic)
    } else if same_text(code, "I") {
        Some(FileType::Image)
    } else if same_text(code, "N") {
        Some(FileType::NoPrint)
    } else if same_text(code, "T") {
        Some(FileType::Telnet)
    } else {
        None
    }
}

/// Builds the command for `verb` with argument text `args`.
pub fn command(verb: &String, args: String) -> (r: Result<FtpCommand, ParseError>)
    ensures
        result_view(r) == command_of(verb@, args@),
{
    if same_text(verb, "USER") {
        Ok(FtpCommand::USER(args))
    } else if same_text(verb, "PASS") {
        Ok(FtpCommand::PASS(args))
    } else if same_text(verb, "QUIT") {
        Ok(FtpCommand::QUIT)
    } else if same_text(verb, "ABOR") {
        Ok(FtpCommand::ABOR)
    } else if same_text(verb, "CWD") {
        Ok(FtpCommand::CWD(args))
    } else if same_text(verb, "CDUP") {
        Ok(FtpCommand::CDUP)
    } else if same_text(verb, "DELE") {
        Ok(FtpCommand::DELE(args))
    } else if same_text(verb, "LIST") {
        Ok(FtpCommand::LIST(optional_text(args)))
    } else if same_text(verb, "NLIST") {
        Ok(FtpCommand::NLIST(optional_text(args)))
    } else if same_text(verb, "MKD") {
        Ok(FtpCommand::MKD(args))
    } else if same_text(verb, "PWD") {
        Ok(FtpCommand::PWD)
    } else if same_text(verb, "RMD") {
        Ok(FtpCommand::RMD(args))
    } else if same_text(verb, "RNFR") {
        Ok(FtpCommand::RNFR(args))
    } else if same_text(verb, "RNTO") {
        Ok(FtpCommand::RNTO(args))
    } else if same_text(verb, "TYPE") {
        match file_type(&args) {
            Some(t) => Ok(FtpCommand::TYPE(t)),
            None => Err(ParseError::InvalidFileType),
        }
    } else if same_text(verb, "PORT") {
        match parse_port(args.as_str()) {
            Ok(a) => Ok(FtpCommand::PORT(a)),
            Err(e) => Err(e),
        }
    } else if same_text(verb, "PASV") {
        Ok(FtpCommand::PASV)
    } else if same_text(verb, "RETR") {
        Ok(FtpCommand::RETR(args))
    } else if same_text(verb, "STOR") {
        Ok(FtpCommand::STOR(args))
    } else if same_text(verb, "STOU") {
        Ok(FtpCommand::STOU(args))
    } else if same_text(verb, "ALLO") {
        match parse_u64(&args) {
            Some(n) => Ok(FtpCommand::ALLO(n)),
            None => Err(ParseError::InvalidNumber),
        }
    } else if same_text(verb, "STAT") {
        Ok(FtpCommand::STAT(optional_text(args)))
    } else if same_text(verb, "REST") {
        match parse_u64(&args) {
            Some(n) => Ok(FtpCommand::REST(n)),
            None => Err(ParseError::InvalidNumber),
        }
    } else if same_text(verb, "SYST") {
        Ok(FtpCommand::SYST)
    } else {
        Ok(FtpCommand::NOOP)
    }
}

/// A decoder of command lines.
pub trait IFtpCommandParser {
    /// Decodes one command line. An unknown verb gives `NOOP`, never an error.
    fn parse(msg: &str) -> (r: Result<FtpCommand, ParseError>)
        ensures
            result_view(r) == parse_line(msg@),
    ;
}

/// The command-line decoder.
pub struct FtpCommandParser;

impl IFtpCommandParser for FtpCommandParser {
    fn parse(msg: &str) -> (r: Result<FtpCommand, ParseError>) {
        let ghost ts = tokens(msg@);
        let b = token_bounds(msg);
        if b.len() == 0 {
            return Err(ParseError::Empty);
        }
        let verb = String::from_str(msg.substring_char(b[0].0, b[0].1));
        let mut args = String::new();
        let mut k: usize = 1;
        assert(ts.subrange(1, 1) =~= Seq::<Seq<char>>::empty());
        while k < b.len()
            invariant
                1 <= k <= b@.len(),
                b@.len() == ts.len(),
                ts == tokens(msg@),
                forall|j: int| #![trigger b@[j]] 0 <= j < b@.len() ==> b@[j].0 < b@[j].1 && b@[j].1 <= msg@.len(),
                forall|j: int|
                    0 <= j < b@.len() ==> #[trigger] ts[j] == msg@.subrange(
                        b@[j].0 as int,
                        b@[j].1 as int,
                    ),
                args@ == join(ts.subrange(1, k as int)),
            decreases b@.len() - k,
        {
            let ghost done = ts.subrange(1, k as int);
            let ghost next = ts.subrange(1, k + 1);
            assert(next.drop_last() =~= done);
            assert(next.last() == ts[k as int]);
            if k > 1 {
                args.append(" ");
            }
            args.append(msg.substring_char(b[k].0, b[k].1));
            k = k + 1;
        }
        assert(ts.subrange(1, ts.len() as int) =~= ts.drop_first());
        command(&verb, args)
    }
}

/// The verbs that take no argument.
pub open spec fn takes_no_argument(verb: Seq<char>) -> bool {
    verb == "QUIT"@ || verb == "ABOR"@ || verb == "CDUP"@ || verb == "PWD"@ || verb == "PASV"@
        || verb == "NOOP"@ || verb == "SYST"@
}

/// The verbs that the parser decodes; any other verb reads as `NOOP`.
pub open spec fn known_verb(verb: Seq<char>) -> bool {
    takes_no_argument(verb) || verb == "USER"@ || verb == "PASS"@ || verb == "CWD"@ || verb
        == "DELE"@ || verb == "LIST"@ || verb == "NLIST"@ || verb == "MKD"@ || verb == "RMD"@
        || verb == "RNFR"@ || verb == "RNTO"@ || verb == "TYPE"@ || verb == "PORT"@ || verb
        == "RETR"@ || verb == "STOR"@ || verb == "STOU"@ || verb == "ALLO"@ || verb == "STAT"@
        || verb == "REST"@
}

/// The characters of each verb and `TYPE` code.
proof fn lemma_verb_text()
    ensures
        "USER"@.len() == 4 && "USER"@[0] == 'U' && "USER"@[1] == 'S' && "USER"@[2] == 'E' && "USER"@[3] == 'R',
        "PASS"@.len() == 4 && "PASS"@[0] == 'P' && "PASS"@[1] == 'A' && "PASS"@[2] == 'S' && "PASS"@[3] == 'S',
        "QUIT"@.len() == 4 && "QUIT"@[0] == 'Q' && "QUIT"@[1] == 'U' && "QUIT"@[2] == 'I' && "QUIT"@[3] == 'T',
        "ABOR"@.len() == 4 && "ABOR"@[0] == 'A' && "ABOR"@[1] == 'B' && "ABOR"@[2] == 'O' && "ABOR"@[3] == 'R',
        "CWD"@.len() == 3 && "CWD"@[0] == 'C' && "CWD"@[1] == 'W' && "CWD"@[2] == 'D',
        "CDUP"@.len() == 4 && "CDUP"@[0] == 'C' && "CDUP"@[1] == 'D' && "CDUP"@[2] == 'U' && "CDUP"@[3] == 'P',
        "DELE"@.len() == 4 && "DELE"@[0] == 'D' && "DELE"@[1] == 'E' && "DELE"@[2] == 'L' && "DELE"@[3] == 'E',
        "LIST"@.len() == 4 && "LIST"@[0] == 'L' && "LIST"@[1] == 'I' && "LIST"@[2] == 'S' && "LIST"@[3] == 'T',
        "NLIST"@.len() == 5 && "NLIST"@[0] == 'N' && "NLIST"@[1] == 'L' && "NLIST"@[2] == 'I' && "NLIST"@[3] == 'S' && "NLIST"@[4] == 'T',
        "MKD"@.len() == 3 && "MKD"@[0] == 'M' && "MKD"@[1] == 'K' && "MKD"@[2] == 'D',
        "PWD"@.len() == 3 && "PWD"@[0] == 'P' && "PWD"@[1] == 'W' && "PWD"@[2] == 'D',
        "RMD"@.len() == 3 && "RMD"@[0] == 'R' && "RMD"@[1] == 'M' && "RMD"@[2] == 'D',
        "RNFR"@.len() == 4 && "RNFR"@[0] == 'R' && "RNFR"@[1] == 'N' && "RNFR"@[2] == 'F' && "RNFR"@[3] == 'R',
        "RNTO"@.len() == 4 && "RNTO"@[0] == 'R' && "RNTO"@[1] == 'N' && "RNTO"@[2] == 'T' && "RNTO"@[3] == 'O',
        "TYPE"@.len() == 4 && "TYPE"@[0] == 'T' && "TYPE"@[1] == 'Y' && "TYPE"@[2] == 'P' && "TYPE"@[3] == 'E',
        "PORT"@.len() == 4 && "PORT"@[0] == 'P' && "PORT"@[1] == 'O' && "PORT"@[2] == 'R' && "PORT"@[3] == 'T',
        "PASV"@.len() == 4 && "PASV"@[0] == 'P' && "PASV"@[1] == 'A' && "PASV"@[2] == 'S' && "PASV"@[3] == 'V',
        "RETR"@.len() == 4 && "RETR"@[0] == 'R' && "RETR"@[1] == 'E' && "RETR"@[2] == 'T' && "RETR"@[3] == 'R',
        "STOR"@.len() == 4 && "STOR"@[0] == 'S' && "STOR"@[1] == 'T' && "STOR"@[2] == 'O' && "STOR"@[3] == 'R',
        "STOU"@.len() == 4 && "STOU"@[0] == 'S' && "STOU"@[1] == 'T' && "STOU"@[2] == 'O' && "STOU"@[3] == 'U',
        "ALLO"@.len() == 4 && "ALLO"@[0] == 'A' && "ALLO"@[1] == 'L' && "ALLO"@[2] == 'L' && "ALLO"@[3] == 'O',
        "STAT"@.len() == 4 && "STAT"@[0] == 'S' && "STAT"@[1] == 'T' && "STAT"@[2] == 'A' && "STAT"@[3] == 'T',
        "REST"@.len() == 4 && "REST"@[0] == 'R' && "REST"@[1] == 'E' && "REST"@[2] == 'S' && "REST"@[3] == 'T',
        "SYST"@.len() == 4 && "SYST"@[0] == 'S' && "SYST"@[1] == 'Y' && "SYST"@[2] == 'S' && "SYST"@[3] == 'T',
        "NOOP"@.len() == 4 && "NOOP"@[0] == 'N' && "NOOP"@[1] == 'O' && "NOOP"@[2] == 'O' && "NOOP"@[3] == 'P',
        "A"@.len() == 1 && "A"@[0] == 'A',
        "E"@.len() == 1 && "E"@[0] == 'E',
        "I"@.len() == 1 && "I"@[0] == 'I',
        "N"@.len() == 1 && "N"@[0] == 'N',
        "T"@.len() == 1 && "T"@[0] == 'T',
{
    reveal_strlit("USER");
    reveal_strlit("PASS");
    reveal_strlit("QUIT");
    reveal_strlit("ABOR");
    reveal_strlit("CWD");
    reveal_strlit("CDUP");
    reveal_strlit("DELE");
    reveal_strlit("LIST");
    reveal_strlit("NLIST");
    reveal_strlit("MKD");
    reveal_strlit("PWD");
    reveal_strlit("RMD");
    reveal_strlit("RNFR");
    reveal_strlit("RNTO");
    reveal_strlit("TYPE");
    reveal_strlit("PORT");
    reveal_strlit("PASV");
    reveal_strlit("RETR");
    reveal_strlit("STOR");
    reveal_strlit("STOU");
    reveal_strlit("ALLO");
    reveal_strlit("STAT");
    reveal_strlit("REST");
    reveal_strlit("SYST");
    reveal_strlit("NOOP");
    reveal_strlit("A");
    reveal_strlit("E");
    reveal_strlit("I");
    reveal_strlit("N");
    reveal_strlit("T");
}

/// A verb that takes no argument gives its command whatever text follows it.
pub proof fn lemma_no_argument_verb_ignores_rest(line: Seq<char>)
    requires
        tokens(line).len() > 0,
        takes_no_argument(tokens(line)[0]),
    ensures
        parse_line(line) is Ok,
        parse_line(line) == command_of(tokens(line)[0], Seq::empty()),
{
    lemma_verb_text();
}

/// `TYPE` succeeds exactly for the codes `A`, `E`, `I`, `N`, `T`; any other
/// argument is an invalid file type.
pub proof fn lemma_type_codes(line: Seq<char>)
    requires
        tokens(line).len() > 0,
        tokens(line)[0] == "TYPE"@,
    ensures
        ({
            let code = join(tokens(line).drop_first());
            &&& parse_line(line) is Ok <==> (code == "A"@ || code == "E"@ || code == "I"@ || code
                == "N"@ || code == "T"@)
            &&& parse_line(line) is Err ==> parse_line(line) == Err::<FtpCommand<Seq<char>>, ParseError>(
                ParseError::InvalidFileType,
            )
        }),
{
    lemma_verb_text();
}

/// A verb that the parser does not know reads as `NOOP`, never as an error.
pub proof fn lemma_unknown_verb_is_noop(line: Seq<char>)
    requires
        tokens(line).len() > 0,
        !known_verb(tokens(line)[0]),
    ensures
        parse_line(line) == Ok::<FtpCommand<Seq<char>>, ParseError>(FtpCommand::NOOP),
{
}

/// Six fields `h1,h2,h3,h4,p1,p2`, as `PORT` takes them.
pub open spec fn port_text(a: u8, b: u8, c: u8, d: u8, e: u8, f: u8) -> Seq<char> {
    decimal(a as nat) + ","@ + decimal(b as nat) + ","@ + decimal(c as nat) + ","@ + decimal(
        d as nat,
    ) + ","@ + decimal(e as nat) + ","@ + decimal(f as nat)
}

proof fn lemma_decimal_digits(n: nat)
    ensures
        decimal(n).len() > 0,
        all_digits(decimal(n)),
        digits_value(decimal(n)) == n,
    decreases n,
{
    reveal_strlit("0123456789");
    let d = n % 10;
    assert(is_digit(digit_char(d)) && (digit_char(d) as nat - '0' as nat) == d) by {
        assert(d == 0 || d == 1 || d == 2 || d == 3 || d == 4 || d == 5 || d == 6 || d == 7 || d
            == 8 || d == 9);
    }
    if n >= 10 {
        lemma_decimal_digits(n / 10);
        let s = decimal(n);
        assert(s.drop_last() =~= decimal(n / 10));
        assert(s.last() == digit_char(d));
        assert(digits_value(s) == digits_value(decimal(n / 10)) * 10 + d);
        assert((n / 10) * 10 + d == n);
        assert forall|i: int| 0 <= i < s.len() implies is_digit(#[trigger] s[i]) by {
            if i < s.len() - 1 {
                assert(s[i] == decimal(n / 10)[i]);
            }
        }
    } else {
        assert(decimal(n).drop_last() =~= Seq::<char>::empty());
        assert(decimal(n).last() == digit_char(d));
        assert(digits_value(Seq::<char>::empty()) == 0);
        assert(d == n);
        assert(digits_value(decimal(n)) == digits_value(Seq::<char>::empty()) * 10 + d);
    }
}

proof fn lemma_decimal_field(n: nat)
    requires
        n <= 255,
    ensures
        unsigned_of(decimal(n), 255) == Some(n),
        forall|i: int| 0 <= i < decimal(n).len() ==> #[trigger] decimal(n)[i] != ',',
{
    lemma_decimal_digits(n);
    let s = decimal(n);
    assert(is_digit(s[0]));
    assert forall|i: int| 0 <= i < s.len() implies #[trigger] s[i] != ',' by {
        assert(is_digit(s[i]));
    }
}

proof fn lemma_pieces_append(p: Seq<char>, w: Seq<char>)
    requires
        forall|i: int| 0 <= i < w.len() ==> #[trigger] w[i] != ',',
    ensures
        pieces(p + w) == pieces(p).update(pieces(p).len() - 1, pieces(p).last() + w),
    decreases w.len(),
{
    lemma_pieces_nonempty(p);
    if w.len() == 0 {
        assert(p + w =~= p);
        assert(pieces(p).last() + w =~= pieces(p).last());
        assert(pieces(p).update(pieces(p).len() - 1, pieces(p).last()) =~= pieces(p));
    } else {
        let w1 = w.drop_last();
        lemma_pieces_append(p, w1);
        assert((p + w).drop_last() =~= p + w1);
        assert((p + w).last() == w.last());
        assert(w.last() != ',');
        assert((pieces(p).last() + w1).push(w.last()) =~= pieces(p).last() + w);
        assert(pieces(p + w) =~= pieces(p).update(pieces(p).len() - 1, pieces(p).last() + w));
    }
}

proof fn lemma_pieces_comma(p: Seq<char>)
    ensures
        pieces(p + ","@) == pieces(p).push(Seq::<char>::empty()),
{
    reveal_strlit(",");
    assert((p + ","@).drop_last() =~= p);
}

proof fn lemma_pieces_field(p: Seq<char>, ps: Seq<Seq<char>>, n: nat)
    requires
        n <= 255,
        pieces(p) == ps.push(Seq::<char>::empty()),
    ensures
        pieces(p + decimal(n)) == ps.push(decimal(n)),
{
    lemma_decimal_field(n);
    lemma_pieces_append(p, decimal(n));
    assert(Seq::<char>::empty() + decimal(n) =~= decimal(n));
    assert(ps.push(Seq::<char>::empty()).update(ps.len() as int, decimal(n)) =~= ps.push(decimal(n)));
}

/// Six decimal octets read as address `h1.h2.h3.h4` and port `p1*256+p2`.
pub proof fn lemma_port_round_trip(a: u8, b: u8, c: u8, d: u8, e: u8, f: u8)
    ensures
        port_of(port_text(a, b, c, d, e, f)) == Ok::<SocketAddress, ParseError>(
            SocketAddress { a, b, c, d, port: (e as nat * 256 + f as nat) as u16 },
        ),
{
    let e0 = Seq::<Seq<char>>::empty();
    let (da, db, dc, dd, de, df) = (
        decimal(a as nat),
        decimal(b as nat),
        decimal(c as nat),
        decimal(d as nat),
        decimal(e as nat),
        decimal(f as nat),
    );
    assert(pieces(Seq::<char>::empty()) == e0.push(Seq::<char>::empty()));
    lemma_pieces_field(Seq::<char>::empty(), e0, a as nat);
    assert(Seq::<char>::empty() + da =~= da);
    let s1 = da + ","@;
    lemma_pieces_comma(da);
    lemma_pieces_field(s1, seq![da], b as nat);
    let s2 = s1 + db + ","@;
    lemma_pieces_comma(s1 + db);
    assert(seq![da].push(db) =~= seq![da, db]);
    lemma_pieces_field(s2, seq![da, db], c as nat);
    let s3 = s2 + dc + ","@;
    lemma_pieces_comma(s2 + dc);
    assert(seq![da, db].push(dc) =~= seq![da, db, dc]);
    lemma_pieces_field(s3, seq![da, db, dc], d as nat);
    let s4 = s3 + dd + ","@;
    lemma_pieces_comma(s3 + dd);
    assert(seq![da, db, dc].push(dd) =~= seq![da, db, dc, dd]);
    lemma_pieces_field(s4, seq![da, db, dc, dd], e as nat);
    let s5 = s4 + de + ","@;
    lemma_pieces_comma(s4 + de);
    assert(seq![da, db, dc, dd].push(de) =~= seq![da, db, dc, dd, de]);
    lemma_pieces_field(s5, seq![da, db, dc, dd, de], f as nat);
    assert(seq![da, db, dc, dd, de].push(df) =~= seq![da, db, dc, dd, de, df]);
    assert(e0.push(da) =~= seq![da]);
    assert(seq![da].push(Seq::<char>::empty()) =~= seq![da].push(Seq::<char>::empty()));
    let ps = pieces(port_text(a, b, c, d, e, f));
    assert(port_text(a, b, c, d, e, f) == s5 + df);
    assert(ps =~= seq![da, db, dc, dd, de, df]);
    lemma_decimal_field(a as nat);
    lemma_decimal_field(b as nat);
    lemma_decimal_field(c as nat);
    lemma_decimal_field(d as nat);
    lemma_decimal_field(e as nat);
    lemma_decimal_field(f as nat);
    assert forall|k: int| 0 <= k < ps.len() implies (#[trigger] unsigned_of(ps[k], 255)) is Some by {
        assert(k == 0 || k == 1 || k == 2 || k == 3 || k == 4 || k == 5);
    }
}

/// `PORT` text decodes only when it has exactly six fields, each a decimal
/// number in 0..=255.
pub proof fn lemma_port_needs_six_octets(args: Seq<char>)
    ensures
        port_of(args) is Ok ==> pieces(args).len() == 6 && forall|k: int|
            0 <= k < 6 ==> (#[trigger] unsigned_of(pieces(args)[k], 255)) is Some,
{
}

proof fn lemma_tokens_append_word(p: Seq<char>, w: Seq<char>)
    requires
        p.len() == 0 || is_ws(p.last()),
        w.len() > 0,
        forall|i: int| 0 <= i < w.len() ==> !is_ws(#[trigger] w[i]),
    ensures
        tokens(p + w) == tokens(p).push(w),
    decreases w.len(),
{
    let w1 = w.drop_last();
    assert((p + w).drop_last() =~= p + w1);
    assert((p + w).last() == w.last());
    if w1.len() == 0 {
        assert(p + w1 =~= p);
        assert(w =~= seq![w.last()]);
        if p.len() > 0 {
            assert((p + w)[(p + w).len() - 2] == p.last());
        }
    } else {
        lemma_tokens_append_word(p, w1);
        assert((p + w)[(p + w).len() - 2] == w1.last());
        assert(w1.push(w.last()) =~= w);
        assert(tokens(p).push(w1).update(tokens(p).len() as int, w) =~= tokens(p).push(w));
    }
}

proof fn lemma_port_text_has_no_space(a: u8, b: u8, c: u8, d: u8, e: u8, f: u8)
    ensures
        port_text(a, b, c, d, e, f).len() > 0,
        forall|i: int|
            0 <= i < port_text(a, b, c, d, e, f).len() ==> !is_ws(
                #[trigger] port_text(a, b, c, d, e, f)[i],
            ),
{
    reveal_strlit(",");
    lemma_decimal_digits(a as nat);
    lemma_decimal_digits(b as nat);
    lemma_decimal_digits(c as nat);
    lemma_decimal_digits(d as nat);
    lemma_decimal_digits(e as nat);
    lemma_decimal_digits(f as nat);
    let t = port_text(a, b, c, d, e, f);
    assert forall|i: int| 0 <= i < t.len() implies !is_ws(#[trigger] t[i]) by {
        assert(is_digit(t[i]) || t[i] == ',');
    }
}

/// A `PORT` line with six octets `a,b,c,d,e,f` gives address `a.b.c.d` and
/// port `e*256+f`.
pub proof fn lemma_port_line(a: u8, b: u8, c: u8, d: u8, e: u8, f: u8)
    ensures
        parse_line("PORT "@ + port_text(a, b, c, d, e, f)) == Ok::<FtpCommand<Seq<char>>, ParseError>(
            FtpCommand::PORT(SocketAddress { a, b, c, d, port: (e as nat * 256 + f as nat) as u16 }),
        ),
{
    reveal_strlit("PORT ");
    reveal_strlit("PORT");
    lemma_verb_text();
    let t = port_text(a, b, c, d, e, f);
    assert("PORT "@ =~= "PORT"@.push(' '));
    lemma_tokens_append_word(Seq::<char>::empty(), "PORT"@);
    assert(Seq::<char>::empty() + "PORT"@ =~= "PORT"@);
    assert(tokens(Seq::<char>::empty()) =~= Seq::<Seq<char>>::empty());
    assert("PORT"@.push(' ').drop_last() =~= "PORT"@);
    lemma_port_text_has_no_space(a, b, c, d, e, f);
    lemma_tokens_append_word("PORT "@, t);
    let ts = tokens("PORT "@ + t);
    assert(ts =~= seq!["PORT"@, t]);
    assert(ts.drop_first() =~= seq![t]);
    lemma_port_round_trip(a, b, c, d, e, f);
}

} // verus!
