//! Commands: GET, SET, DEL and CREATE, read from an array frame and run
//! against the keyspaces.

use crate::blob::{bytes_as_slice, bytes_content, bytes_from_string};
use crate::digits::{leading_i64, leading_integer_within};
use crate::frame::{models, Frame, FrameModel};
use crate::keyspace::{
    manager_create, space_del, space_get, space_index, space_set, Evictor, KeyspaceManager,
    ManagerModel, MAX_MEMORY_SAMPLE_SIZE,
};
use crate::text::{decode_text, join3, parse_usize, text_eq, upper_of, uppercase, usize_text};
use bytes::Bytes;
use vstd::prelude::*;
use vstd::utf8::{decode_utf8, encode_utf8, valid_utf8};

verus! {

/// What went wrong while reading a command.
#[derive(Debug, Clone, Copy, PartialEq, Eq, Structural)]
pub enum ErrorKind {
    NotAnArray,
    NotAString,
    NotABlob,
    NotAnInteger,
    NoCommand,
    UnknownCommand,
    MissingKeyspace,
    MissingKey,
    MissingValue,
    WrongArityGet,
    WrongAritySet,
    WrongArityDel,
    WrongArityCreate,
    InvalidEvictor,
    InvalidSampleSize,
    InvalidOption,
    SampleSizeWithNoop,
}

/// A command that could not be read: what went wrong, and the word it went
/// wrong on (empty where no word is to blame).
#[derive(Debug, Clone, PartialEq, Eq)]
pub struct CommandError {
    pub kind: ErrorKind,
    pub detail: String,
}

/// A command error as the contracts see it.
pub struct ErrorModel {
    pub kind: ErrorKind,
    pub detail: Seq<char>,
}

pub open spec fn fault(kind: ErrorKind) -> ErrorModel {
    ErrorModel { kind, detail: Seq::empty() }
}

impl CommandError {
    pub open spec fn model(&self) -> ErrorModel {
        ErrorModel { kind: self.kind, detail: self.detail@ }
    }

    fn of(kind: ErrorKind) -> (e: CommandError)
        ensures
            e.model() == fault(kind),
    {
        CommandError { kind, detail: String::new() }
    }

    fn on(kind: ErrorKind, detail: String) -> (e: CommandError)
        ensures
            e.model() == (ErrorModel { kind, detail: detail@ }),
    {
        CommandError { kind, detail }
    }
}

/// A string argument: a string frame, or a blob of UTF-8 text.
pub open spec fn arg_text(f: FrameModel) -> Result<Seq<char>, ErrorModel> {
    match f {
        FrameModel::String(s) => Ok(s),
        FrameModel::Blob(b) => if valid_utf8(b) {
            Ok(decode_utf8(b))
        } else {
            Err(fault(ErrorKind::NotAString))
        },
        _ => Err(fault(ErrorKind::NotAString)),
    }
}

/// A byte argument: a blob, or a string frame's UTF-8 bytes.
pub open spec fn arg_bytes(f: FrameModel) -> Result<Seq<u8>, ErrorModel> {
    match f {
        FrameModel::String(s) => Ok(encode_utf8(s)),
        FrameModel::Blob(b) => Ok(b),
        _ => Err(fault(ErrorKind::NotABlob)),
    }
}

/// An integer argument: an integer frame, or the leading integer of a
/// string's or a blob's bytes.
pub open spec fn arg_integer(f: FrameModel) -> Result<int, ErrorModel> {
    let bytes = match f {
        FrameModel::String(s) => Some(encode_utf8(s)),
        FrameModel::Blob(b) => Some(b),
        _ => None,
    };
    match f {
        FrameModel::Integer(i) => Ok(i),
        _ => match bytes {
            Some(b) => match leading_integer_within(b, i64::MIN as int, i64::MAX as int) {
                Some(v) => Ok(v),
                None => Err(fault(ErrorKind::NotAnInteger)),
            },
            None => Err(fault(ErrorKind::NotAnInteger)),
        },
    }
}

/// The arguments of a command, read one at a time from the front.
pub struct Parser {
    rest: Vec<Frame>,
}

impl Parser {
    /// The arguments not read yet, in order.
    pub closed spec fn args(&self) -> Seq<FrameModel> {
        Seq::new(self.rest@.len(), |i: int| self.rest@[self.rest@.len() - 1 - i].model())
    }

    /// A parser over the items of an array frame.
    pub fn new(frame: Frame) -> (r: Result<Parser, CommandError>)
        ensures
            match frame.model() {
                FrameModel::Array(items) => r matches Ok(p) && p.args() == items,
                _ => r matches Err(e) && e.model() == fault(ErrorKind::NotAnArray),
            },
    {
        match frame {
            Frame::Array(values) => {
                let ghost items = models(values@);
                proof {
                    crate::encode::lemma_models(values@);
                }
                let mut values = values;
                let mut rest: Vec<Frame> = Vec::new();
                let ghost n = values@.len();
                let ghost all = values@;
                while values.len() > 0
                    invariant
                        all.len() == n,
                        values@.len() + rest@.len() == n,
                        values@ == all.subrange(0, values@.len() as int),
                        forall|i: int| 0 <= i < rest@.len() ==> #[trigger] rest@[i] == all[n - 1 - i],
                    decreases values@.len(),
                {
                    let v = values.pop().unwrap();
                    rest.push(v);
                    assert(values@ =~= all.subrange(0, values@.len() as int));
                }
                let p = Parser { rest };
                assert(p.args() =~= items);
                Ok(p)
            },
            _ => Err(CommandError::of(ErrorKind::NotAnArray)),
        }
    }

    fn next(&mut self) -> (r: Option<Frame>)
        ensures
            old(self).args().len() == 0 ==> r is None && final(self).args() == old(self).args(),
            old(self).args().len() > 0 ==> (r matches Some(f) && f.model() == old(self).args()[0]
                && final(self).args() == old(self).args().drop_first()),
    {
        let r = self.rest.pop();
        assert(self.args() =~= old(self).args().drop_first() || old(self).args().len() == 0);
        r
    }

    /// The next argument as text, or `None` when none is left.
    pub fn next_string(&mut self) -> (r: Result<Option<String>, CommandError>)
        ensures
            old(self).args().len() == 0 ==> (r matches Ok(None) && final(self).args() == old(
                self).args()),
            old(self).args().len() > 0 ==> final(self).args() == old(self).args().drop_first() && (
            match arg_text(old(self).args()[0]) {
                Ok(t) => r matches Ok(Some(s)) && s@ == t,
                Err(e) => r matches Err(x) && x.model() == e,
            }),
    {
        match self.next() {
            Some(frame) => match frame {
                Frame::String(data) => Ok(Some(data)),
                Frame::Blob(data) => match decode_text(bytes_as_slice(&data)) {
                    Some(s) => Ok(Some(s)),
                    None => Err(CommandError::of(ErrorKind::NotAString)),
                },
                _ => Err(CommandError::of(ErrorKind::NotAString)),
            },
            None => Ok(None),
        }
    }

    /// The next argument as bytes, or `None` when none is left.
    pub fn next_blob(&mut self) -> (r: Result<Option<Bytes>, CommandError>)
        ensures
            old(self).args().len() == 0 ==> (r matches Ok(None) && final(self).args() == old(
                self).args()),
            old(self).args().len() > 0 ==> final(self).args() == old(self).args().drop_first() && (
            match arg_bytes(old(self).args()[0]) {
                Ok(t) => r matches Ok(Some(b)) && bytes_content(b) == t,
                Err(e) => r matches Err(x) && x.model() == e,
            }),
    {
        match self.next() {
            Some(frame) => match frame {
                Frame::String(data) => Ok(Some(bytes_from_string(data))),
                Frame::Blob(data) => Ok(Some(data)),
                _ => Err(CommandError::of(ErrorKind::NotABlob)),
            },
            None => Ok(None),
        }
    }

    /// The next argument as an integer, or `None` when none is left.
    pub fn _next_integer(&mut self) -> (r: Result<Option<i64>, CommandError>)
        ensures
            old(self).args().len() == 0 ==> (r matches Ok(None) && final(self).args() == old(
                self).args()),
            old(self).args().len() > 0 ==> final(self).args() == old(self).args().drop_first() && (
            match arg_integer(old(self).args()[0]) {
                Ok(v) => r matches Ok(Some(x)) && x as int == v,
                Err(e) => r matches Err(x) && x.model() == e,
            }),
    {
        match self.next() {
            Some(frame) => {
                let read = match &frame {
                    Frame::String(data) => leading_i64(data.as_str().as_bytes()),
                    Frame::Blob(data) => leading_i64(bytes_as_slice(data)),
                    Frame::Integer(val) => Some(*val),
                    _ => None,
                };
                match read {
                    Some(v) => Ok(Some(v)),
                    None => Err(CommandError::of(ErrorKind::NotAnInteger)),
                }
            },
            None => Ok(None),
        }
    }

    /// Whether every argument has been read.
    pub fn consumed(&self) -> (r: bool)
        ensures
            r == (self.args().len() == 0),
    {
        self.rest.len() == 0
    }
}

#[derive(Debug, PartialEq)]
pub enum Command {
    Get(Get),
    SetValue(SetValue),
    Del(Del),
    Create(Create),
}

#[derive(Debug, PartialEq)]
pub struct Get {
    pub key: String,
    pub keyspace: String,
}

#[derive(Debug, PartialEq)]
pub struct SetValue {
    pub key: String,
    pub value: Bytes,
    pub keyspace: String,
}

#[derive(Debug, PartialEq)]
pub struct Del {
    pub key: String,
    pub keyspace: String,
}

#[derive(Debug, PartialEq)]
pub struct Create {
    pub keyspace: String,
    pub evictor: Evictor,
    pub max_memory_sample_size: Option<usize>,
}

/// A command as the contracts see it.
pub enum CommandModel {
    Get { keyspace: Seq<char>, key: Seq<char> },
    SetValue { keyspace: Seq<char>, key: Seq<char>, value: Seq<u8> },
    Del { keyspace: Seq<char>, key: Seq<char> },
    Create { keyspace: Seq<char>, evictor: Evictor, sample_size: Option<int> },
}

impl Command {
    pub open spec fn model(&self) -> CommandModel {
        match self {
            Command::Get(c) => CommandModel::Get { keyspace: c.keyspace@, key: c.key@ },
            Command::SetValue(c) => CommandModel::SetValue {
                keyspace: c.keyspace@,
                key: c.key@,
                value: bytes_content(c.value),
            },
            Command::Del(c) => CommandModel::Del { keyspace: c.keyspace@, key: c.key@ },
            Command::Create(c) => CommandModel::Create {
                keyspace: c.keyspace@,
                evictor: c.evictor,
                sample_size: match c.max_memory_sample_size {
                    Some(n) => Some(n as int),
                    None => None,
                },
            },
        }
    }
}

/// The keyspace and key of GET or DEL; `arity` is the error for surplus
/// arguments.
pub open spec fn read_pair(args: Seq<FrameModel>, arity: ErrorKind) -> Result<
    (Seq<char>, Seq<char>),
    ErrorModel,
> {
    if args.len() == 0 {
        Err(fault(ErrorKind::MissingKeyspace))
    } else {
        match arg_text(args[0]) {
            Err(e) => Err(e),
            Ok(ks) => if args.len() == 1 {
                Err(fault(ErrorKind::MissingKey))
            } else {
                match arg_text(args[1]) {
                    Err(e) => Err(e),
                    Ok(k) => if args.len() > 2 {
                        Err(fault(arity))
                    } else {
                        Ok((ks, k))
                    },
                }
            },
        }
    }
}

/// The keyspace, key and value of SET.
pub open spec fn read_set(args: Seq<FrameModel>) -> Result<
    (Seq<char>, Seq<char>, Seq<u8>),
    ErrorModel,
> {
    if args.len() == 0 {
        Err(fault(ErrorKind::MissingKeyspace))
    } else {
        match arg_text(args[0]) {
            Err(e) => Err(e),
            Ok(ks) => if args.len() == 1 {
                Err(fault(ErrorKind::MissingKey))
            } else {
                match arg_text(args[1]) {
                    Err(e) => Err(e),
                    Ok(k) => if args.len() == 2 {
                        Err(fault(ErrorKind::MissingValue))
                    } else {
                        match arg_bytes(args[2]) {
                            Err(e) => Err(e),
                            Ok(v) => if args.len() > 3 {
                                Err(fault(ErrorKind::WrongAritySet))
                            } else {
                                Ok((ks, k, v))
                            },
                        }
                    },
                }
            },
        }
    }
}

/// The reply to an operation on a keyspace that does not exist.
pub open spec fn missing_reply(name: Seq<char>) -> FrameModel {
    FrameModel::Error("ERREXEC keyspace '"@ + name + "' does not exist"@)
}

/// The manager with keyspace `i` replaced.
pub open spec fn with_space(m: ManagerModel, i: int, ks: crate::keyspace::KeyspaceModel) -> ManagerModel {
    ManagerModel { spaces: m.spaces.update(i, ks), ..m }
}

fn missing_frame(name: &str) -> (r: Frame)
    ensures
        r.model() == missing_reply(name@),
{
    Frame::Error(join3("ERREXEC keyspace '", name, "' does not exist"))
}

/// Reads the keyspace and key of GET or DEL.
fn read_pair_exec(parser: &mut Parser, arity: ErrorKind) -> (r: Result<(String, String), CommandError>)
    ensures
        match read_pair(old(parser).args(), arity) {
            Ok((ks, k)) => r matches Ok((a, b)) && a@ == ks && b@ == k && final(parser).args().len()
                == 0,
            Err(e) => r matches Err(x) && x.model() == e,
        },
{
    let keyspace = match parser.next_string() {
        Err(e) => return Err(e),
        Ok(None) => return Err(CommandError::of(ErrorKind::MissingKeyspace)),
        Ok(Some(s)) => s,
    };
    let key = match parser.next_string() {
        Err(e) => return Err(e),
        Ok(None) => return Err(CommandError::of(ErrorKind::MissingKey)),
        Ok(Some(s)) => s,
    };
    if !parser.consumed() {
        return Err(CommandError::of(arity));
    }
    Ok((keyspace, key))
}

impl Get {
    pub fn parse(parser: &mut Parser) -> (r: Result<Get, CommandError>)
        ensures
            match read_pair(old(parser).args(), ErrorKind::WrongArityGet) {
                Ok((ks, k)) => r matches Ok(c) && c.keyspace@ == ks && c.key@ == k
                    && final(parser).args().len() == 0,
                Err(e) => r matches Err(x) && x.model() == e,
            },
    {
        match read_pair_exec(parser, ErrorKind::WrongArityGet) {
            Ok((keyspace, key)) => Ok(Get { keyspace, key }),
            Err(e) => Err(e),
        }
    }

    /// Runs GET: the value as a blob, null when the key is absent.
    pub fn exec(&self, manager: &mut KeyspaceManager) -> (r: Frame)
        requires
            old(manager).wf(),
        ensures
            final(manager).wf(),
            final(manager).memory_cap() == old(manager).memory_cap(),
            (final(manager).model(), r.model()) == run(
                old(manager).model(),
                Command::Get(*self).model(),
            ),
    {
        match manager.get(self.keyspace.as_str(), self.key.as_str()) {
            Ok(Some(value)) => Frame::Blob(value),
            Ok(None) => Frame::Null,
            Err(e) => missing_frame(e.keyspace()),
        }
    }
}

impl Del {
    pub fn parse(parser: &mut Parser) -> (r: Result<Del, CommandError>)
        ensures
            match read_pair(old(parser).args(), ErrorKind::WrongArityDel) {
                Ok((ks, k)) => r matches Ok(c) && c.keyspace@ == ks && c.key@ == k
                    && final(parser).args().len() == 0,
                Err(e) => r matches Err(x) && x.model() == e,
            },
    {
        match read_pair_exec(parser, ErrorKind::WrongArityDel) {
            Ok((keyspace, key)) => Ok(Del { keyspace, key }),
            Err(e) => Err(e),
        }
    }

    /// Runs DEL: 1 when the key was removed, else 0.
    pub fn exec(&self, manager: &mut KeyspaceManager) -> (r: Frame)
        requires
            old(manager).wf(),
        ensures
            final(manager).wf(),
            final(manager).memory_cap() == old(manager).memory_cap(),
            (final(manager).model(), r.model()) == run(
                old(manager).model(),
                Command::Del(*self).model(),
            ),
    {
        match manager.del(self.keyspace.as_str(), self.key.as_str()) {
            Ok(n) => Frame::Integer(n as i64),
            Err(e) => missing_frame(e.keyspace()),
        }
    }
}

impl SetValue {
    pub fn parse(parser: &mut Parser) -> (r: Result<SetValue, CommandError>)
        ensures
            match read_set(old(parser).args()) {
                Ok((ks, k, v)) => r matches Ok(c) && c.keyspace@ == ks && c.key@ == k
                    && bytes_content(c.value) == v && final(parser).args().len() == 0,
                Err(e) => r matches Err(x) && x.model() == e,
            },
    {
        let keyspace = match parser.next_string() {
            Err(e) => return Err(e),
            Ok(None) => return Err(CommandError::of(ErrorKind::MissingKeyspace)),
            Ok(Some(s)) => s,
        };
        let key = match parser.next_string() {
            Err(e) => return Err(e),
            Ok(None) => return Err(CommandError::of(ErrorKind::MissingKey)),
            Ok(Some(s)) => s,
        };
        let value = match parser.next_blob() {
            Err(e) => return Err(e),
            Ok(None) => return Err(CommandError::of(ErrorKind::MissingValue)),
            Ok(Some(b)) => b,
        };
        if !parser.consumed() {
            return Err(CommandError::of(ErrorKind::WrongAritySet));
        }
        Ok(SetValue { keyspace, key, value })
    }

    /// Runs SET: always 1.
    pub fn exec(self, manager: &mut KeyspaceManager) -> (r: Frame)
        requires
            old(manager).wf(),
        ensures
            final(manager).wf(),
            final(manager).memory_cap() == old(manager).memory_cap(),
            (final(manager).model(), r.model()) == run(
                old(manager).model(),
                Command::SetValue(self).model(),
            ),
    {
        let SetValue { key, value, keyspace } = self;
        match manager.set(keyspace.as_str(), key, value) {
            Ok(n) => Frame::Integer(n as i64),
            Err(e) => missing_frame(e.keyspace()),
        }
    }
}

/// Running a command: the keyspaces afterwards, and the reply.
pub open spec fn run(m: ManagerModel, c: CommandModel) -> (ManagerModel, FrameModel) {
    match c {
        CommandModel::Get { keyspace, key } => match space_index(m, keyspace) {
            None => (m, missing_reply(keyspace)),
            Some(i) => {
                let (found, ks) = space_get(m.spaces[i], key);
                (
                    with_space(m, i, ks),
                    match found {
                        Some(b) => FrameModel::Blob(b),
                        None => FrameModel::Null,
                    },
                )
            },
        },
        CommandModel::SetValue { keyspace, key, value } => match space_index(m, keyspace) {
            None => (m, missing_reply(keyspace)),
            Some(i) => (with_space(m, i, space_set(m.spaces[i], key, value)), FrameModel::Integer(1)),
        },
        CommandModel::Del { keyspace, key } => match space_index(m, keyspace) {
            None => (m, missing_reply(keyspace)),
            Some(i) => {
                let (n, ks) = space_del(m.spaces[i], key);
                (with_space(m, i, ks), FrameModel::Integer(n))
            },
        },
        CommandModel::Create { keyspace, evictor, sample_size } => {
            let (m2, n) = manager_create(
                m,
                keyspace,
                evictor,
                match sample_size {
                    Some(s) => s,
                    None => 0,
                },
            );
            (m2, FrameModel::Integer(n))
        },
    }
}

/// The option words after CREATE's keyspace, read from index `i` on: at
/// most five are read (a sixth is an error), each must be text.
pub open spec fn read_tokens(toks: Seq<FrameModel>, i: int) -> Result<Seq<Seq<char>>, ErrorModel>
    decreases toks.len() - i,
{
    if i >= toks.len() {
        Ok(Seq::empty())
    } else if i > 4 {
        Err(fault(ErrorKind::WrongArityCreate))
    } else {
        match arg_text(toks[i]) {
            Err(e) => Err(e),
            Ok(t) => match read_tokens(toks, i + 1) {
                Ok(ts) => Ok(seq![t] + ts),
                Err(e) => Err(e),
            },
        }
    }
}

/// The evictor that an (uppercased) word names.
pub open spec fn evictor_named(v: Seq<char>) -> Option<Evictor> {
    if v == "RANDOM"@ {
        Some(Evictor::Random)
    } else if v == "NOOP"@ {
        Some(Evictor::Noop)
    } else if v == "LRU"@ {
        Some(Evictor::Lru)
    } else {
        None
    }
}

/// The option pairs from index `i` on, applied to the evictor and sample
/// size read so far; option names and values are compared uppercased, and a
/// later option overrides an earlier one.
pub open spec fn apply_options(toks: Seq<Seq<char>>, i: int, ev: Evictor, ss: Option<int>) -> Result<
    (Evictor, Option<int>),
    ErrorModel,
>
    decreases toks.len() - i,
{
    if i < 0 || i + 1 >= toks.len() {
        Ok((ev, ss))
    } else {
        match option_step(upper_of(toks[i]), upper_of(toks[i + 1]), ev, ss) {
            Ok((e, n)) => apply_options(toks, i + 2, e, n),
            Err(x) => Err(x),
        }
    }
}

/// One option pair of CREATE, its name and value already uppercased,
/// applied to the evictor and sample size read so far.
pub open spec fn option_step(arg: Seq<char>, val: Seq<char>, ev: Evictor, ss: Option<int>) -> Result<
    (Evictor, Option<int>),
    ErrorModel,
> {
    if arg == "EV"@ {
        match evictor_named(val) {
            Some(e) => Ok((e, ss)),
            None => Err(ErrorModel { kind: ErrorKind::InvalidEvictor, detail: val }),
        }
    } else if arg == "SS"@ {
        match usize_text(val) {
            Some(n) => Ok((ev, Some(n))),
            None => Err(ErrorModel { kind: ErrorKind::InvalidSampleSize, detail: val }),
        }
    } else {
        Err(ErrorModel { kind: ErrorKind::InvalidOption, detail: arg })
    }
}

pub open spec fn size_model(s: Option<usize>) -> Option<int> {
    match s {
        Some(n) => Some(n as int),
        None => None,
    }
}

/// Applies one option pair of CREATE, whose name and value are already
/// uppercased, to the evictor and sample size read so far.
pub fn apply_option(arg: &str, val: &str, evictor: Evictor, sample_size: Option<usize>) -> (r: Result<
    (Evictor, Option<usize>),
    CommandError,
>)
    ensures
        match option_step(arg@, val@, evictor, size_model(sample_size)) {
            Ok((e, n)) => r matches Ok((e2, n2)) && e2 == e && size_model(n2) == n,
            Err(x) => r matches Err(y) && y.model() == x,
        },
{
    if text_eq(arg, "EV") {
        if text_eq(val, "RANDOM") {
            Ok((Evictor::Random, sample_size))
        } else if text_eq(val, "NOOP") {
            Ok((Evictor::Noop, sample_size))
        } else if text_eq(val, "LRU") {
            Ok((Evictor::Lru, sample_size))
        } else {
            Err(CommandError::on(ErrorKind::InvalidEvictor, val.to_owned()))
        }
    } else if text_eq(arg, "SS") {
        match parse_usize(val) {
            Some(n) => Ok((evictor, Some(n))),
            None => Err(CommandError::on(ErrorKind::InvalidSampleSize, val.to_owned())),
        }
    } else {
        Err(CommandError::on(ErrorKind::InvalidOption, arg.to_owned()))
    }
}

/// CREATE's keyspace, evictor and sample size. Options come in pairs, at
/// most two; a sample size goes with Random or Lru only, which take 3 when
/// none is given.
pub open spec fn read_create(args: Seq<FrameModel>) -> Result<
    (Seq<char>, Evictor, Option<int>),
    ErrorModel,
> {
    if args.len() == 0 {
        Err(fault(ErrorKind::MissingKeyspace))
    } else {
        match arg_text(args[0]) {
            Err(e) => Err(e),
            Ok(ks) => match read_tokens(args.drop_first(), 0) {
                Err(e) => Err(e),
                Ok(toks) => if toks.len() == 0 {
                    Ok((ks, Evictor::Noop, None))
                } else if toks.len() % 2 != 0 {
                    Err(fault(ErrorKind::WrongArityCreate))
                } else {
                    match apply_options(toks, 0, Evictor::Noop, None) {
                        Err(e) => Err(e),
                        Ok((ev, ss)) => if ev is Noop && ss is Some {
                            Err(fault(ErrorKind::SampleSizeWithNoop))
                        } else if !(ev is Noop) && ss is None {
                            Ok((ks, ev, Some(MAX_MEMORY_SAMPLE_SIZE as int)))
                        } else {
                            Ok((ks, ev, ss))
                        },
                    }
                },
            },
        }
    }
}

/// Tokens read so far, put in front of what the rest reads.
pub open spec fn glue(
    acc: Seq<Seq<char>>,
    r: Result<Seq<Seq<char>>, ErrorModel>,
) -> Result<Seq<Seq<char>>, ErrorModel> {
    match r {
        Ok(ts) => Ok(acc + ts),
        Err(e) => Err(e),
    }
}

/// The views of some strings.
pub open spec fn texts(v: Seq<String>) -> Seq<Seq<char>> {
    Seq::new(v.len(), |i: int| v[i]@)
}

impl Create {
    pub fn parse(parser: &mut Parser) -> (r: Result<Create, CommandError>)
        ensures
            match read_create(old(parser).args()) {
                Ok((ks, ev, ss)) => r matches Ok(c) && c.keyspace@ == ks && c.evictor == ev && (
                match ss {
                    Some(n) => c.max_memory_sample_size matches Some(m) && m as int == n,
                    None => c.max_memory_sample_size is None,
                }) && final(parser).args().len() == 0,
                Err(e) => r matches Err(x) && x.model() == e,
            },
    {
        let ghost args = parser.args();
        let keyspace = match parser.next_string() {
            Err(e) => return Err(e),
            Ok(None) => return Err(CommandError::of(ErrorKind::MissingKeyspace)),
            Ok(Some(s)) => s,
        };
        let ghost toks = args.drop_first();
        let mut tokens: Vec<String> = Vec::new();
        assert(glue(texts(tokens@), read_tokens(toks, 0)) == read_tokens(toks, 0)) by {
            assert(texts(tokens@) =~= Seq::<Seq<char>>::empty());
            if let Ok(ts) = read_tokens(toks, 0) {
                assert(Seq::<Seq<char>>::empty() + ts =~= ts);
            }
        }
        assert(parser.args() =~= toks.subrange(0, toks.len() as int));
        while !parser.consumed()
            invariant
                args == old(parser).args(),
                args.len() > 0,
                arg_text(args[0]) == Ok::<Seq<char>, ErrorModel>(keyspace@),
                toks == args.drop_first(),
                tokens@.len() <= toks.len(),
                parser.args() == toks.subrange(tokens@.len() as int, toks.len() as int),
                read_tokens(toks, 0) == glue(texts(tokens@), read_tokens(toks, tokens@.len() as int)),
            decreases parser.args().len(),
        {
            let ghost k = tokens@.len() as int;
            if tokens.len() > 4 {
                return Err(CommandError::of(ErrorKind::WrongArityCreate));
            }
            match parser.next_string() {
                Err(e) => return Err(e),
                Ok(None) => {},
                Ok(Some(token)) => {
                    let ghost prev = tokens@;
                    let ghost t = token@;
                    tokens.push(token);
                    proof {
                        assert(texts(tokens@) =~= texts(prev).push(t));
                        if let Ok(ts) = read_tokens(toks, k + 1) {
                            assert(texts(prev) + (seq![t] + ts) =~= texts(prev).push(t) + ts);
                        }
                    }
                },
            }
            assert(parser.args() =~= toks.subrange(tokens@.len() as int, toks.len() as int));
        }
        let ghost tv = texts(tokens@);
        assert(read_tokens(toks, 0) == Ok::<Seq<Seq<char>>, ErrorModel>(tv)) by {
            assert(tv + Seq::<Seq<char>>::empty() =~= tv);
        }
        if tokens.len() == 0 {
            return Ok(Create { keyspace, evictor: Evictor::Noop, max_memory_sample_size: None });
        }
        if tokens.len() % 2 != 0 {
            return Err(CommandError::of(ErrorKind::WrongArityCreate));
        }
        let mut evictor = Evictor::Noop;
        let mut sample_size: Option<usize> = None;
        let mut i: usize = 0;
        while i < tokens.len() - 1
            invariant
                args == old(parser).args(),
                args.len() > 0,
                arg_text(args[0]) == Ok::<Seq<char>, ErrorModel>(keyspace@),
                toks == args.drop_first(),
                read_tokens(toks, 0) == Ok::<Seq<Seq<char>>, ErrorModel>(tv),
                tv == texts(tokens@),
                parser.args().len() == 0,
                tokens@.len() % 2 == 0,
                tokens@.len() > 0,
                i % 2 == 0,
                i <= tokens@.len(),
                apply_options(tv, 0, Evictor::Noop, None) == apply_options(
                    tv,
                    i as int,
                    evictor,
                    size_model(sample_size),
                ),
            decreases tokens@.len() - i,
        {
            let arg = uppercase(tokens[i].as_str());
            let val = uppercase(tokens[i + 1].as_str());
            match apply_option(arg.as_str(), val.as_str(), evictor, sample_size) {
                Ok((e, n)) => {
                    evictor = e;
                    sample_size = n;
                },
                Err(x) => return Err(x),
            }
            i = i + 2;
        }
        if let Evictor::Noop = evictor {
            if sample_size.is_some() {
                return Err(CommandError::of(ErrorKind::SampleSizeWithNoop));
            }
        } else if sample_size.is_none() {
            sample_size = Some(MAX_MEMORY_SAMPLE_SIZE);
        }
        Ok(Create { keyspace, evictor, max_memory_sample_size: sample_size })
    }

    /// Runs CREATE: 1 when the keyspace is new, 0 when the name was taken.
    pub fn exec(self, manager: &mut KeyspaceManager) -> (r: Frame)
        requires
            old(manager).wf(),
        ensures
            final(manager).wf(),
            final(manager).memory_cap() == old(manager).memory_cap(),
            (final(manager).model(), r.model()) == run(
                old(manager).model(),
                Command::Create(self).model(),
            ),
    {
        let Create { keyspace, evictor, max_memory_sample_size } = self;
        let sample_size = match max_memory_sample_size {
            Some(n) => n,
            None => 0,
        };
        let r = manager.create(keyspace, evictor, sample_size);
        Frame::Integer(r as i64)
    }
}

/// The command an array's items spell: the first item names it, case aside.
pub open spec fn read_command(items: Seq<FrameModel>) -> Result<CommandModel, ErrorModel> {
    if items.len() == 0 {
        Err(fault(ErrorKind::NoCommand))
    } else {
        match arg_text(items[0]) {
            Err(e) => Err(e),
            Ok(c) => {
                let u = upper_of(c);
                let rest = items.drop_first();
                match command_word(u) {
                    Some(CommandWord::SetValue) => match read_set(rest) {
                        Ok((keyspace, key, value)) => Ok(CommandModel::SetValue { keyspace, key, value }),
                        Err(e) => Err(e),
                    },
                    Some(CommandWord::Get) => match read_pair(rest, ErrorKind::WrongArityGet) {
                        Ok((keyspace, key)) => Ok(CommandModel::Get { keyspace, key }),
                        Err(e) => Err(e),
                    },
                    Some(CommandWord::Del) => match read_pair(rest, ErrorKind::WrongArityDel) {
                        Ok((keyspace, key)) => Ok(CommandModel::Del { keyspace, key }),
                        Err(e) => Err(e),
                    },
                    Some(CommandWord::Create) => match read_create(rest) {
                        Ok((keyspace, evictor, sample_size)) => Ok(
                            CommandModel::Create { keyspace, evictor, sample_size },
                        ),
                        Err(e) => Err(e),
                    },
                    None => Err(ErrorModel { kind: ErrorKind::UnknownCommand, detail: u }),
                }
            },
        }
    }
}

/// The four commands, by name.
#[derive(Debug, Clone, Copy, PartialEq, Eq, Structural)]
pub enum CommandWord {
    Get,
    SetValue,
    Del,
    Create,
}

/// The command an (uppercased) word names.
pub open spec fn command_word(u: Seq<char>) -> Option<CommandWord> {
    if u == "SET"@ {
        Some(CommandWord::SetValue)
    } else if u == "GET"@ {
        Some(CommandWord::Get)
    } else if u == "DEL"@ {
        Some(CommandWord::Del)
    } else if u == "CREATE"@ {
        Some(CommandWord::Create)
    } else {
        None
    }
}

/// The command that `word`, already uppercased, names.
pub fn command_named(word: &str) -> (r: Option<CommandWord>)
    ensures
        r == command_word(word@),
{
    if text_eq(word, "SET") {
        Some(CommandWord::SetValue)
    } else if text_eq(word, "GET") {
        Some(CommandWord::Get)
    } else if text_eq(word, "DEL") {
        Some(CommandWord::Del)
    } else if text_eq(word, "CREATE") {
        Some(CommandWord::Create)
    } else {
        None
    }
}

/// The command a frame spells, if it is an array.
pub open spec fn frame_command(f: FrameModel) -> Result<CommandModel, ErrorModel> {
    match f {
        FrameModel::Array(items) => read_command(items),
        _ => Err(fault(ErrorKind::NotAnArray)),
    }
}

pub open spec fn command_outcome(r: Result<Command, CommandError>) -> Result<CommandModel, ErrorModel> {
    match r {
        Ok(c) => Ok(c.model()),
        Err(e) => Err(e.model()),
    }
}

/// Reads the command that `frame` spells.
pub fn new(frame: Frame) -> (r: Result<Command, CommandError>)
    ensures
        command_outcome(r) == frame_command(frame.model()),
{
    let mut parser = match Parser::new(frame) {
        Ok(p) => p,
        Err(e) => return Err(e),
    };
    let cmd = match parser.next_string() {
        Err(e) => return Err(e),
        Ok(None) => return Err(CommandError::of(ErrorKind::NoCommand)),
        Ok(Some(c)) => c,
    };
    let command = uppercase(cmd.as_str());
    match command_named(command.as_str()) {
        Some(CommandWord::SetValue) => match SetValue::parse(&mut parser) {
            Ok(c) => Ok(Command::SetValue(c)),
            Err(e) => Err(e),
        },
        Some(CommandWord::Get) => match Get::parse(&mut parser) {
            Ok(c) => Ok(Command::Get(c)),
            Err(e) => Err(e),
        },
        Some(CommandWord::Del) => match Del::parse(&mut parser) {
            Ok(c) => Ok(Command::Del(c)),
            Err(e) => Err(e),
        },
        Some(CommandWord::Create) => match Create::parse(&mut parser) {
            Ok(c) => Ok(Command::Create(c)),
            Err(e) => Err(e),
        },
        None => Err(CommandError::on(ErrorKind::UnknownCommand, command)),
    }
}

/// Runs `cmd` and gives its reply.
pub fn exec(cmd: Command, manager: &mut KeyspaceManager) -> (r: Frame)
    requires
        old(manager).wf(),
    ensures
        final(manager).wf(),
        final(manager).memory_cap() == old(manager).memory_cap(),
        (final(manager).model(), r.model()) == run(old(manager).model(), cmd.model()),
{
    match cmd {
        Command::Create(c) => c.exec(manager),
        Command::SetValue(c) => c.exec(manager),
        Command::Del(c) => c.exec(manager),
        Command::Get(c) => c.exec(manager),
    }
}

/// The text of a command error, as the client reads it.
pub open spec fn error_text(e: ErrorModel) -> Seq<char> {
    match e.kind {
        ErrorKind::NotAnArray => "ERRPARSE Failed to parse frame as array"@,
        ErrorKind::NotAString => "ERRPARSE Failed to parse frame as string"@,
        ErrorKind::NotABlob => "ERRPARSE Failed to parse frame as blob"@,
        ErrorKind::NotAnInteger => "ERRPARSE Failed to parse frame as integer"@,
        ErrorKind::NoCommand => "ERRPARSE No command was provided to be executed"@,
        ErrorKind::UnknownCommand => "ERRPARSE Unknown command '"@ + e.detail + "'"@,
        ErrorKind::MissingKeyspace => "ERRPARSE Invalid command, missing argument 'KEYSPACE'"@,
        ErrorKind::MissingKey => "ERRPARSE Invalid command, missing argument 'KEY'"@,
        ErrorKind::MissingValue => "ERRPARSE Invalid command, missing argument 'VALUE'"@,
        ErrorKind::WrongArityGet => "ERRPARSE Invalid command, wrong number of arguments for 'GET'"@,
        ErrorKind::WrongAritySet => "ERRPARSE Invalid command, wrong number of arguments for 'SET'"@,
        ErrorKind::WrongArityDel => "ERRPARSE Invalid command, wrong number of arguments for 'DEL'"@,
        ErrorKind::WrongArityCreate => "ERRPARSE Invalid command, wrong number of arguments for 'CREATE'"@,
        ErrorKind::InvalidEvictor => "ERRPARSE Invalid value '"@ + e.detail + "' for 'EVICTOR'"@,
        ErrorKind::InvalidSampleSize => "ERRPARSE Invalid value '"@ + e.detail + "' for 'SAMPLE SIZE'"@,
        ErrorKind::InvalidOption => "ERRPARSE Invalid argument '"@ + e.detail + "'"@,
        ErrorKind::SampleSizeWithNoop => "ERRPARSE Invalid command, 'SAMPLE SIZE' not applicable for 'NOOP' evictor"@,
    }
}

impl CommandError {
    /// The error as the client reads it.
    pub fn message(&self) -> (r: String)
        ensures
            r@ == error_text(self.model()),
    {
        let d = self.detail.as_str();
        match self.kind {
            ErrorKind::NotAnArray => "ERRPARSE Failed to parse frame as array".to_owned(),
            ErrorKind::NotAString => "ERRPARSE Failed to parse frame as string".to_owned(),
            ErrorKind::NotABlob => "ERRPARSE Failed to parse frame as blob".to_owned(),
            ErrorKind::NotAnInteger => "ERRPARSE Failed to parse frame as integer".to_owned(),
            ErrorKind::NoCommand => "ERRPARSE No command was provided to be executed".to_owned(),
            ErrorKind::UnknownCommand => join3("ERRPARSE Unknown command '", d, "'"),
            ErrorKind::MissingKeyspace => "ERRPARSE Invalid command, missing argument 'KEYSPACE'".to_owned(),
            ErrorKind::MissingKey => "ERRPARSE Invalid command, missing argument 'KEY'".to_owned(),
            ErrorKind::MissingValue => "ERRPARSE Invalid command, missing argument 'VALUE'".to_owned(),
            ErrorKind::WrongArityGet => "ERRPARSE Invalid command, wrong number of arguments for 'GET'".to_owned(),
            ErrorKind::WrongAritySet => "ERRPARSE Invalid command, wrong number of arguments for 'SET'".to_owned(),
            ErrorKind::WrongArityDel => "ERRPARSE Invalid command, wrong number of arguments for 'DEL'".to_owned(),
            ErrorKind::WrongArityCreate => "ERRPARSE Invalid command, wrong number of arguments for 'CREATE'".to_owned(),
            ErrorKind::InvalidEvictor => join3("ERRPARSE Invalid value '", d, "' for 'EVICTOR'"),
            ErrorKind::InvalidSampleSize => join3("ERRPARSE Invalid value '", d, "' for 'SAMPLE SIZE'"),
            ErrorKind::InvalidOption => join3("ERRPARSE Invalid argument '", d, "'"),
            ErrorKind::SampleSizeWithNoop => "ERRPARSE Invalid command, 'SAMPLE SIZE' not applicable for 'NOOP' evictor".to_owned(),
        }
    }
}

/// Answering one request frame: the keyspaces afterwards and the reply.
/// A frame that spells no command is answered with the reason, in an error
/// frame, and changes nothing.
pub open spec fn answer(m: ManagerModel, request: FrameModel) -> (ManagerModel, FrameModel) {
    match frame_command(request) {
        Ok(c) => run(m, c),
        Err(e) => (m, FrameModel::Error(error_text(e))),
    }
}

/// Answers one request frame.
pub fn respond(manager: &mut KeyspaceManager, request: Frame) -> (r: Frame)
    requires
        old(manager).wf(),
    ensures
        final(manager).wf(),
        final(manager).memory_cap() == old(manager).memory_cap(),
        (final(manager).model(), r.model()) == answer(old(manager).model(), request.model()),
{
    match new(request) {
        Ok(cmd) => exec(cmd, manager),
        Err(e) => Frame::Error(e.message()),
    }
}

} // verus!
