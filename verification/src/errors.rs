//! The errors that parsing and compiling report, with their messages.
use vstd::prelude::*;
use crate::text::dec;

verus! {

#[derive(Debug)]
pub enum Error {
    Syntax,
    Type,
    Compile(CompileError),
}

#[derive(Debug)]
pub enum CompileError {
    ScheduleWithoutAlarm,
    AlarmWithoutSchedule { alarm_title: String },
    ReferenceNotFound { file_path: String },
    ParseInReference { file_path: String, error: Box<LineError> },
}

/// An error together with the line (and its index, counted from zero) that caused it.
#[derive(Debug)]
pub struct LineError {
    index: usize,
    line: String,
    error: Error,
}

/// The abstract value of an [`Error`]: texts in place of strings, and the two levels of
/// `Error::Compile(CompileError::..)` folded into one.
pub enum ErrorView {
    Syntax,
    Type,
    ScheduleWithoutAlarm,
    AlarmWithoutSchedule(Seq<char>),
    ReferenceNotFound(Seq<char>),
    ParseInReference(Seq<char>, Box<LineErrorView>),
}

/// The abstract value of a [`LineError`].
pub struct LineErrorView {
    pub index: usize,
    pub line: Seq<char>,
    pub error: ErrorView,
}

pub open spec fn error_view(e: Error) -> ErrorView
    decreases e,
{
    match e {
        Error::Syntax => ErrorView::Syntax,
        Error::Type => ErrorView::Type,
        Error::Compile(c) => match c {
            CompileError::ScheduleWithoutAlarm => ErrorView::ScheduleWithoutAlarm,
            CompileError::AlarmWithoutSchedule { alarm_title } => ErrorView::AlarmWithoutSchedule(
                alarm_title@,
            ),
            CompileError::ReferenceNotFound { file_path } => ErrorView::ReferenceNotFound(
                file_path@,
            ),
            CompileError::ParseInReference { file_path, error } => ErrorView::ParseInReference(
                file_path@,
                Box::new(line_error_view(*error)),
            ),
        },
    }
}

pub closed spec fn line_error_view(l: LineError) -> LineErrorView
    decreases l,
{
    LineErrorView { index: l.index, line: l.line@, error: error_view(l.error) }
}

impl View for Error {
    type V = ErrorView;

    open spec fn view(&self) -> ErrorView {
        error_view(*self)
    }
}

impl View for LineError {
    type V = LineErrorView;

    open spec fn view(&self) -> LineErrorView {
        line_error_view(*self)
    }
}

/// The message of an error (what `Display` prints for it).
pub open spec fn error_text(e: ErrorView) -> Seq<char>
    decreases e,
{
    match e {
        ErrorView::Syntax => "Syntax Error."@,
        ErrorView::Type => "Attempted node method on incorrect type."@,
        ErrorView::ScheduleWithoutAlarm => "Compile Error: "@ + "Schedule Without Alarm."@,
        ErrorView::AlarmWithoutSchedule(t) => "Compile Error: "@ + "Alarm Without Schedule: "@
            + t,
        ErrorView::ReferenceNotFound(p) => "Compile Error: "@ + "Reference Not Found: "@ + p,
        ErrorView::ParseInReference(p, l) => "Compile Error: "@ + "Parse in Reference \n[file: "@
            + p + "]\n"@ + line_error_text(*l),
    }
}

/// The message of a line error: `[index] line: message`.
pub open spec fn line_error_text(l: LineErrorView) -> Seq<char>
    decreases l,
{
    "["@ + dec(l.index as nat) + "] "@ + l.line + ": "@ + error_text(l.error)
}

impl Error {
    pub fn no_alarm() -> (r: Self)
        ensures
            r@ == ErrorView::ScheduleWithoutAlarm,
    {
        Self::Compile(CompileError::ScheduleWithoutAlarm)
    }

    pub fn alarm_no_schedule(alarm: String) -> (r: Self)
        ensures
            r@ == ErrorView::AlarmWithoutSchedule(alarm@),
    {
        Self::Compile(CompileError::AlarmWithoutSchedule { alarm_title: alarm })
    }

    pub fn reference_not_found(reference: String) -> (r: Self)
        ensures
            r@ == ErrorView::ReferenceNotFound(reference@),
    {
        Self::Compile(CompileError::ReferenceNotFound { file_path: reference })
    }

    pub fn parse_in_reference(reference: String, error: LineError) -> (r: Self)
        ensures
            r@ == ErrorView::ParseInReference(reference@, Box::new(error@)),
    {
        Self::Compile(CompileError::ParseInReference { file_path: reference, error: Box::new(error) })
    }

    /// The text that `Display` shows for this error.
    pub fn message(&self) -> (r: String)
        ensures
            r@ == error_text(self@),
        decreases self,
    {
        let mut s = String::new();
        match self {
            Error::Syntax => {
                s.append("Syntax Error.");
            },
            Error::Type => {
                s.append("Attempted node method on incorrect type.");
            },
            Error::Compile(c) => {
                s.append("Compile Error: ");
                match c {
                    CompileError::ScheduleWithoutAlarm => {
                        s.append("Schedule Without Alarm.");
                    },
                    CompileError::AlarmWithoutSchedule { alarm_title } => {
                        s.append("Alarm Without Schedule: ");
                        s.append(alarm_title.as_str());
                    },
                    CompileError::ReferenceNotFound { file_path } => {
                        s.append("Reference Not Found: ");
                        s.append(file_path.as_str());
                    },
                    CompileError::ParseInReference { file_path, error } => {
                        s.append("Parse in Reference \n[file: ");
                        s.append(file_path.as_str());
                        s.append("]\n");
                        let inner = error.message();
                        s.append(inner.as_str());
                    },
                }
            },
        }
        s
    }
}

impl LineError {
    pub fn new(index: usize, line: String, error: Error) -> (r: Self)
        ensures
            r@ == (LineErrorView { index, line: line@, error: error@ }),
    {
        Self { index, line, error }
    }

    pub fn index(&self) -> (r: usize)
        ensures
            r == self@.index,
    {
        self.index
    }

    pub fn line(&self) -> (r: &str)
        ensures
            r@ == self@.line,
    {
        self.line.as_str()
    }

    pub fn error(&self) -> (r: &Error)
        ensures
            r@ == self@.error,
    {
        &self.error
    }

    /// The text that `Display` shows for this line error.
    pub fn message(&self) -> (r: String)
        ensures
            r@ == line_error_text(self@),
        decreases self,
    {
        let mut s = String::new();
        s.append("[");
        crate::text::push_dec(&mut s, self.index as u64);
        s.append("] ");
        s.append(self.line.as_str());
        s.append(": ");
        let inner = self.error.message();
        s.append(inner.as_str());
        s
    }
}

} // verus!
