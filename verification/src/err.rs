//! Errors of the interpreter, with what is needed to show them: the text of
//! the source, the span that is at fault, and the message.

use vstd::prelude::*;

verus! {

/// Why a statement could not be carried out.
#[derive(Debug)]
pub enum ParseError {
    /// The statement is at fault.
    Msg(&'static str),
    /// A file that the statement named is at fault: the message, the text
    /// of the file, and the span in it.
    SubFile(&'static str, Vec<u8>, usize, usize),
}

impl From<&'static str> for ParseError {
    fn from(msg: &'static str) -> (r: Self) {
        Self::Msg(msg)
    }
}

impl vstd::std_specs::convert::FromSpecImpl<&'static str> for ParseError {
    open spec fn obeys_from_spec() -> bool {
        true
    }

    open spec fn from_spec(msg: &'static str) -> ParseError {
        ParseError::Msg(msg)
    }
}

impl ParseError {
    /// The error as it leaves the file that it arose in: an error of the
    /// file's own statements takes the file's text `ftxt` and the span from
    /// `start` to `end` with it; an error that a file named further inside
    /// has already claimed stays as it is.
    pub open spec fn spec_in_file(self, ftxt: Seq<u8>, start: usize, end: usize) -> (
        &'static str,
        Seq<u8>,
        usize,
        usize,
    ) {
        match self {
            ParseError::Msg(msg) => (msg, ftxt, start, end),
            ParseError::SubFile(msg, txt, s, e) => (msg, txt@, s, e),
        }
    }

    /// The error as it leaves the file with the text `ftxt`, whose lexer had
    /// consumed the span from `start` to `end` last.
    pub fn in_file(self, ftxt: Vec<u8>, start: usize, end: usize) -> (r: ParseError)
        ensures
            r matches ParseError::SubFile(msg, txt, s, e) && (msg, txt@, s, e)
                == self.spec_in_file(ftxt@, start, end),
    {
        match self {
            ParseError::Msg(msg) => ParseError::SubFile(msg, ftxt, start, end),
            ParseError::SubFile(msg, txt, s, e) => ParseError::SubFile(msg, txt, s, e),
        }
    }
}

/// An error ready to be shown.
#[derive(Debug)]
pub enum Error<'a> {
    /// In the source given: the source, the span, the message.
    Root(&'a [u8], usize, usize, &'static str),
    /// In a file that the source named: the path as the source spells it,
    /// the text of the file, the span in that text, the message.
    Sub(&'a [u8], Vec<u8>, usize, usize, &'static str),
}

/// How many of the first `n` bytes of `src` are line feeds.
pub open spec fn newlines(src: Seq<u8>, n: int) -> nat
    decreases n,
{
    if n <= 0 || n > src.len() {
        0
    } else {
        newlines(src, n - 1) + if src[n - 1] == 0x0a {
            1nat
        } else {
            0nat
        }
    }
}

/// Where the line that holds offset `s` starts: behind the last line feed
/// before `s`, or at 0.
pub open spec fn line_start(src: Seq<u8>, s: int) -> int
    decreases s,
{
    if s <= 0 || s > src.len() {
        0
    } else if src[s - 1] == 0x0a {
        s
    } else {
        line_start(src, s - 1)
    }
}

/// Where the line that holds offset `e` ends: at the first line feed from
/// `e` on, or at the end of the text.
pub open spec fn line_end(src: Seq<u8>, e: int) -> int
    decreases src.len() - e,
{
    if e < 0 || e >= src.len() {
        src.len() as int
    } else if src[e] == 0x0a {
        e
    } else {
        line_end(src, e + 1)
    }
}

impl<'a> Error<'a> {
    /// The text that the span counts in.
    pub open spec fn text(self) -> Seq<u8> {
        match self {
            Error::Root(src, _, _, _) => src@,
            Error::Sub(_, src, _, _, _) => src@,
        }
    }

    /// Where the span that is at fault starts.
    pub open spec fn start(self) -> usize {
        match self {
            Error::Root(_, s, _, _) => s,
            Error::Sub(_, _, s, _, _) => s,
        }
    }

    /// Where the span that is at fault ends.
    pub open spec fn end(self) -> usize {
        match self {
            Error::Root(_, _, e, _) => e,
            Error::Sub(_, _, _, e, _) => e,
        }
    }

    /// The span lies inside the text.
    pub open spec fn wf(self) -> bool {
        self.start() <= self.end() <= self.text().len()
    }

    /// Whether the span lies inside the text.
    pub fn is_wf(&self) -> (r: bool)
        ensures
            r == self.wf(),
    {
        match self {
            Self::Root(src, s, e, _) => *s <= *e && *e <= src.len(),
            Self::Sub(_, src, s, e, _) => *s <= *e && *e <= src.len(),
        }
    }

    /// The error of the statement that named a file, or of the source
    /// itself. `src` is the source, and `start` to `end` the span that is at
    /// fault in it: of an error in a file, that is how the source spells the
    /// file's path.
    pub fn report(err: ParseError, src: &'a [u8], start: usize, end: usize) -> (r: Error<'a>)
        requires
            start <= end <= src@.len(),
        ensures
            match err {
                ParseError::Msg(msg) => r == Error::Root(src, start, end, msg),
                ParseError::SubFile(msg, txt, s, e) => r matches Error::Sub(p, t, s2, e2, m) && p@
                    == src@.subrange(start as int, end as int) && t == txt && s2 == s && e2 == e
                    && m == msg,
            },
    {
        match err {
            ParseError::Msg(msg) => Error::Root(src, start, end, msg),
            ParseError::SubFile(msg, txt, s, e) => Error::Sub(
                vstd::slice::slice_subrange(src, start, end),
                txt,
                s,
                e,
                msg,
            ),
        }
    }

    /// The path of the file that the error is in, as the source spells it;
    /// none for an error in the source itself.
    pub fn file_path(&self) -> (r: Option<&[u8]>)
        ensures
            match *self {
                Error::Root(_, _, _, _) => r is None,
                Error::Sub(p, _, _, _, _) => r matches Some(q) && q@ == p@,
            },
    {
        match self {
            Self::Sub(p, _, _, _, _) => Some(*p),
            _ => None,
        }
    }

    /// The number of the line that the span starts in, counted from 1; the
    /// largest number there is where that does not fit.
    pub fn line_num(&self) -> (n: usize)
        requires
            self.wf(),
        ensures
            n == if 1 + newlines(self.text(), self.start() as int) > usize::MAX {
                usize::MAX as nat
            } else {
                1 + newlines(self.text(), self.start() as int)
            },
    {
        let (src, s): (&[u8], usize) = match self {
            Self::Root(src, s, _, _) => (*src, *s),
            Self::Sub(_, src, s, _, _) => (src.as_slice(), *s),
        };
        let mut n: usize = 0;
        let mut i: usize = 0;
        while i < s
            invariant
                i <= s <= src@.len(),
                n == newlines(src@, i as int),
                n <= i,
            decreases s - i,
        {
            if src[i] == 0x0a {
                n = n + 1;
            }
            i = i + 1;
        }
        if n == usize::MAX {
            n
        } else {
            n + 1
        }
    }

    /// What is wrong, in words.
    pub fn msg(&self) -> (m: &'static str)
        ensures
            m == match *self {
                Error::Root(_, _, _, msg) => msg,
                Error::Sub(_, _, _, _, msg) => msg,
            },
    {
        match self {
            Self::Root(_, _, _, msg) => msg,
            Self::Sub(_, _, _, _, msg) => msg,
        }
    }

    /// The text of the line before the span.
    pub fn pre_txt(&self) -> (r: &[u8])
        requires
            self.wf(),
        ensures
            r@ == self.text().subrange(
                line_start(self.text(), self.start() as int),
                self.start() as int,
            ),
    {
        let (src, s): (&[u8], usize) = match self {
            Self::Root(src, s, _, _) => (*src, *s),
            Self::Sub(_, src, s, _, _) => (src.as_slice(), *s),
        };
        let mut ln_start: usize = s;
        while ln_start > 0 && src[ln_start - 1] != 0x0a
            invariant
                ln_start <= s <= src@.len(),
                line_start(src@, s as int) == line_start(src@, ln_start as int),
            decreases ln_start,
        {
            ln_start = ln_start - 1;
        }
        vstd::slice::slice_subrange(src, ln_start, s)
    }

    /// The text of the span.
    pub fn txt(&self) -> (r: &[u8])
        requires
            self.wf(),
        ensures
            r@ == self.text().subrange(self.start() as int, self.end() as int),
    {
        match self {
            Self::Root(src, s, e, _) => vstd::slice::slice_subrange(*src, *s, *e),
            Self::Sub(_, src, s, e, _) => vstd::slice::slice_subrange(src.as_slice(), *s, *e),
        }
    }

    /// The text of the line behind the span.
    pub fn post_txt(&self) -> (r: &[u8])
        requires
            self.wf(),
        ensures
            r@ == self.text().subrange(
                self.end() as int,
                line_end(self.text(), self.end() as int),
            ),
    {
        let (src, e): (&[u8], usize) = match self {
            Self::Root(src, _, e, _) => (*src, *e),
            Self::Sub(_, src, _, e, _) => (src.as_slice(), *e),
        };
        let mut ln_end: usize = e;
        while ln_end < src.len() && src[ln_end] != 0x0a
            invariant
                e <= ln_end <= src@.len(),
                line_end(src@, e as int) == line_end(src@, ln_end as int),
            decreases src.len() - ln_end,
        {
            ln_end = ln_end + 1;
        }
        vstd::slice::slice_subrange(src, e, ln_end)
    }
}

} // verus!
