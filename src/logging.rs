//! Log levels, the logger's settings, and the records it writes.
use vstd::prelude::*;
use vstd::string::StringSliceAdditionalSpecFns;
use crate::text::{append_bytes, push_str};

verus! {

/// Severity of a message, lowest first.
#[derive(Clone, Copy, Debug, PartialEq, Eq, Structural)]
pub enum LogLevel {
    Verbose,
    Debug,
    Info,
    Warn,
    Error,
    Off,
}

/// Where records go.
#[derive(Clone, Copy, Debug, PartialEq, Eq, Structural)]
pub enum LoggerKind {
    FileLogger,
    ConsoleLogger,
    NoLogger,
}

pub open spec fn rank(l: LogLevel) -> nat {
    match l {
        LogLevel::Verbose => 0,
        LogLevel::Debug => 1,
        LogLevel::Info => 2,
        LogLevel::Warn => 3,
        LogLevel::Error => 4,
        LogLevel::Off => 5,
    }
}

pub open spec fn level_name(l: LogLevel) -> &'static str {
    match l {
        LogLevel::Verbose => "VERBOSE",
        LogLevel::Debug => "DEBUG",
        LogLevel::Info => "INFO",
        LogLevel::Warn => "WARN",
        LogLevel::Error => "ERROR",
        LogLevel::Off => "",
    }
}

impl LogLevel {
    /// Position of the level, lowest first.
    pub fn rank(&self) -> (r: u8)
        ensures
            r as nat == rank(*self),
    {
        match self {
            LogLevel::Verbose => 0,
            LogLevel::Debug => 1,
            LogLevel::Info => 2,
            LogLevel::Warn => 3,
            LogLevel::Error => 4,
            LogLevel::Off => 5,
        }
    }

    /// The level's name in records.
    pub fn name(&self) -> (r: &'static str)
        ensures
            r@ == level_name(*self)@,
    {
        match self {
            LogLevel::Verbose => "VERBOSE",
            LogLevel::Debug => "DEBUG",
            LogLevel::Info => "INFO",
            LogLevel::Warn => "WARN",
            LogLevel::Error => "ERROR",
            LogLevel::Off => "",
        }
    }
}

/// A logger's settings: the lowest level it writes and where it writes.
#[derive(Clone, Copy, Debug)]
pub struct Logger {
    pub level: LogLevel,
    pub kind: LoggerKind,
}

/// A record: `[LEVEL]-[time]: message`.
pub open spec fn record_text(level: LogLevel, time: Seq<u8>, msg: Seq<u8>) -> Seq<u8> {
    seq![91u8] + level_name(level).spec_bytes() + seq![93u8, 45u8, 91u8] + time + seq![
        93u8,
        58u8,
        32u8,
    ] + msg
}

impl Logger {
    pub fn no_logger() -> (r: Logger)
        ensures
            r.level == LogLevel::Off,
            r.kind == LoggerKind::NoLogger,
    {
        Logger { level: LogLevel::Off, kind: LoggerKind::NoLogger }
    }

    pub fn console_logger() -> (r: Logger)
        ensures
            r.level == LogLevel::Info,
            r.kind == LoggerKind::ConsoleLogger,
    {
        Logger { level: LogLevel::Info, kind: LoggerKind::ConsoleLogger }
    }

    pub fn file_logger() -> (r: Logger)
        ensures
            r.level == LogLevel::Info,
            r.kind == LoggerKind::FileLogger,
    {
        Logger { level: LogLevel::Info, kind: LoggerKind::FileLogger }
    }

    /// Whether a message of `level` is written.
    pub fn enabled(&self, level: LogLevel) -> (r: bool)
        ensures
            r == (self.kind != LoggerKind::NoLogger && rank(level) >= rank(self.level)),
    {
        !matches!(self.kind, LoggerKind::NoLogger) && level.rank() >= self.level.rank()
    }

    /// The record to write for `msg` at `level`, stamped with `time`, or
    /// `None` where the logger does not write that level.
    pub fn log(&self, msg: &[u8], level: LogLevel, time: &[u8]) -> (r: Option<Vec<u8>>)
        ensures
            match r {
                Some(t) => self.kind != LoggerKind::NoLogger && rank(level) >= rank(self.level)
                    && t@ == record_text(level, time@, msg@),
                None => !(self.kind != LoggerKind::NoLogger && rank(level) >= rank(self.level)),
            },
    {
        if !self.enabled(level) {
            return None;
        }
        let mut out: Vec<u8> = Vec::new();
        out.push(91);
        push_str(&mut out, level.name());
        out.push(93);
        out.push(45);
        out.push(91);
        append_bytes(&mut out, time);
        out.push(93);
        out.push(58);
        out.push(32);
        append_bytes(&mut out, msg);
        assert(out@ =~= record_text(level, time@, msg@));
        Some(out)
    }

    pub fn warn(&self, msg: &[u8], time: &[u8]) -> (r: Option<Vec<u8>>)
        ensures
            match r {
                Some(t) => self.kind != LoggerKind::NoLogger && rank(LogLevel::Warn) >= rank(
                    self.level,
                ) && t@ == record_text(LogLevel::Warn, time@, msg@),
                None => !(self.kind != LoggerKind::NoLogger && rank(LogLevel::Warn) >= rank(
                    self.level,
                )),
            },
    {
        self.log(msg, LogLevel::Warn, time)
    }

    pub fn info(&self, msg: &[u8], time: &[u8]) -> (r: Option<Vec<u8>>)
        ensures
            match r {
                Some(t) => self.kind != LoggerKind::NoLogger && rank(LogLevel::Info) >= rank(
                    self.level,
                ) && t@ == record_text(LogLevel::Info, time@, msg@),
                None => !(self.kind != LoggerKind::NoLogger && rank(LogLevel::Info) >= rank(
                    self.level,
                )),
            },
    {
        self.log(msg, LogLevel::Info, time)
    }

    pub fn error(&self, msg: &[u8], time: &[u8]) -> (r: Option<Vec<u8>>)
        ensures
            match r {
                Some(t) => self.kind != LoggerKind::NoLogger && rank(LogLevel::Error) >= rank(
                    self.level,
                ) && t@ == record_text(LogLevel::Error, time@, msg@),
                None => !(self.kind != LoggerKind::NoLogger && rank(LogLevel::Error) >= rank(
                    self.level,
                )),
            },
    {
        self.log(msg, LogLevel::Error, time)
    }

    pub fn debug(&self, msg: &[u8], time: &[u8]) -> (r: Option<Vec<u8>>)
        ensures
            match r {
                Some(t) => self.kind != LoggerKind::NoLogger && rank(LogLevel::Debug) >= rank(
                    self.level,
                ) && t@ == record_text(LogLevel::Debug, time@, msg@),
                None => !(self.kind != LoggerKind::NoLogger && rank(LogLevel::Debug) >= rank(
                    self.level,
                )),
            },
    {
        self.log(msg, LogLevel::Debug, time)
    }

    pub fn verbose(&self, msg: &[u8], time: &[u8]) -> (r: Option<Vec<u8>>)
        ensures
            match r {
                Some(t) => self.kind != LoggerKind::NoLogger && rank(LogLevel::Verbose) >= rank(
                    self.level,
                ) && t@ == record_text(LogLevel::Verbose, time@, msg@),
                None => !(self.kind != LoggerKind::NoLogger && rank(LogLevel::Verbose) >= rank(
                    self.level,
                )),
            },
    {
        self.log(msg, LogLevel::Verbose, time)
    }
}

} // verus!
