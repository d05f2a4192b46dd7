//! The commit record and the line-by-line parser that builds it.
use vstd::prelude::*;

use crate::line::{
    all_hex, author_line, date_line, hash_line, is_delimiter, is_delimiter_line, match_author_line,
    match_date_line, match_hash_line, match_subject_line, opt_string_view, subject_line,
};

verus! {

/// One commit, as read from an exported patch file.
pub struct Patch {
    /// The 40 hex digits of the exported commit.
    pub hash: String,
    /// The export timestamp of the first line.
    pub from_date: String,
    /// The value of the `From:` header.
    pub orig_author: String,
    /// The value of the `Date:` header, without its weekday.
    pub orig_date: String,
    /// The subject text, then each line up to the `---` line, each ended by
    /// a newline, then an optional sign-off line.
    pub message: String,
    /// Reserved for rewritten authorship; the parser leaves it empty.
    pub new_author: Option<String>,
    /// Where the record was read from.
    pub path: String,
}

/// The contents of a [`Patch`] as sequences of characters.
pub struct PatchView {
    pub hash: Seq<char>,
    pub from_date: Seq<char>,
    pub orig_author: Seq<char>,
    pub orig_date: Seq<char>,
    pub message: Seq<char>,
    pub new_author: Option<Seq<char>>,
    pub path: Seq<char>,
}

impl View for Patch {
    type V = PatchView;

    open spec fn view(&self) -> PatchView {
        PatchView {
            hash: self.hash@,
            from_date: self.from_date@,
            orig_author: self.orig_author@,
            orig_date: self.orig_date@,
            message: self.message@,
            new_author: match self.new_author {
                Some(s) => Some(s@),
                None => None,
            },
            path: self.path@,
        }
    }
}

/// Why a file is not an exported patch; each names the stage that failed.
#[derive(Clone, Copy, Debug, PartialEq, Eq, Structural)]
pub enum ParseError {
    InvalidHashLine,
    InvalidAuthorLine,
    InvalidDateLine,
    InvalidSubjectLine,
    /// The input ended before the `---` line.
    UnterminatedMessage,
}

impl ParseError {
    /// A one-line description of the failed stage.
    pub fn describe(&self) -> (r: &'static str)
        ensures
            *self == ParseError::InvalidHashLine ==> r@ == "Invalid hash line."@,
            *self == ParseError::InvalidAuthorLine ==> r@ == "Invalid author line."@,
            *self == ParseError::InvalidDateLine ==> r@ == "Invalid date line."@,
            *self == ParseError::InvalidSubjectLine ==> r@ == "Invalid subject line."@,
            *self == ParseError::UnterminatedMessage ==> r@ == "Message is not terminated."@,
    {
        match self {
            ParseError::InvalidHashLine => "Invalid hash line.",
            ParseError::InvalidAuthorLine => "Invalid author line.",
            ParseError::InvalidDateLine => "Invalid date line.",
            ParseError::InvalidSubjectLine => "Invalid subject line.",
            ParseError::UnterminatedMessage => "Message is not terminated.",
        }
    }
}

pub open spec fn lines_view(lines: Seq<String>) -> Seq<Seq<char>> {
    lines.map_values(|s: String| s@)
}

pub open spec fn opt_str_view(o: Option<&str>) -> Option<Seq<char>> {
    match o {
        Some(s) => Some(s@),
        None => None,
    }
}

pub open spec fn result_view(r: Result<Patch, ParseError>) -> Result<PatchView, ParseError> {
    match r {
        Ok(p) => Ok(p@),
        Err(e) => Err(e),
    }
}

/// Each line followed by a newline, all concatenated.
pub open spec fn join_lines(ls: Seq<Seq<char>>) -> Seq<char>
    decreases ls.len(),
{
    if ls.len() == 0 {
        Seq::empty()
    } else {
        join_lines(ls.drop_last()) + ls.last() + "\n"@
    }
}

/// The trailer added for a signature, or nothing.
pub open spec fn sign_off(signature: Option<Seq<char>>) -> Seq<char> {
    match signature {
        Some(s) => "Signed-off-by: "@ + s + "\n"@,
        None => Seq::empty(),
    }
}

/// `d` is the first `---` line after the four header lines.
pub open spec fn is_first_delimiter(ls: Seq<Seq<char>>, d: int) -> bool {
    &&& 4 <= d < ls.len()
    &&& is_delimiter(ls[d])
    &&& forall|i: int| 4 <= i < d ==> !is_delimiter(#[trigger] ls[i])
}

/// The message built from the subject text, the body lines and the signature.
pub open spec fn message_of(subject: Seq<char>, body: Seq<Seq<char>>, signature: Option<
    Seq<char>,
>) -> Seq<char> {
    subject + "\n"@ + join_lines(body) + sign_off(signature)
}

/// What parsing the lines `ls` of a file at `path` gives.
pub open spec fn parse_spec(ls: Seq<Seq<char>>, path: Seq<char>, signature: Option<Seq<char>>) -> Result<
    PatchView,
    ParseError,
> {
    if ls.len() == 0 {
        Err(ParseError::UnterminatedMessage)
    } else if hash_line(ls[0]) is None {
        Err(ParseError::InvalidHashLine)
    } else if ls.len() == 1 {
        Err(ParseError::UnterminatedMessage)
    } else if author_line(ls[1]) is None {
        Err(ParseError::InvalidAuthorLine)
    } else if ls.len() == 2 {
        Err(ParseError::UnterminatedMessage)
    } else if date_line(ls[2]) is None {
        Err(ParseError::InvalidDateLine)
    } else if ls.len() == 3 {
        Err(ParseError::UnterminatedMessage)
    } else if subject_line(ls[3]) is None {
        Err(ParseError::InvalidSubjectLine)
    } else if exists|d: int| is_first_delimiter(ls, d) {
        let d = choose|d: int| is_first_delimiter(ls, d);
        Ok(
            PatchView {
                hash: hash_line(ls[0]).unwrap().0,
                from_date: hash_line(ls[0]).unwrap().1,
                orig_author: author_line(ls[1]).unwrap(),
                orig_date: date_line(ls[2]).unwrap(),
                message: message_of(subject_line(ls[3]).unwrap(), ls.subrange(4, d), signature),
                new_author: None,
                path,
            },
        )
    } else {
        Err(ParseError::UnterminatedMessage)
    }
}

/// There is at most one first `---` line.
pub proof fn lemma_first_delimiter_unique(ls: Seq<Seq<char>>, d1: int, d2: int)
    requires
        is_first_delimiter(ls, d1),
        is_first_delimiter(ls, d2),
    ensures
        d1 == d2,
{
    if d1 < d2 {
        assert(!is_delimiter(ls[d1]));
    } else if d2 < d1 {
        assert(!is_delimiter(ls[d2]));
    }
}

/// Where the scan of a file stands. Each line moves it once: through the four
/// header lines, then the message lines, until the `---` line (`Finish`) or a
/// line without the expected shape (`Invalid`).
#[derive(Clone, Copy)]
enum ParseState {
    Init,
    Author,
    Date,
    Subject,
    Message,
    Finish,
    Invalid(ParseError),
}

/// The scan of one file in progress. Feed it the lines of the file in order
/// with [`PatchScanner::step`] until [`PatchScanner::is_done`] holds or the
/// file ends, then take the outcome with [`PatchScanner::finish`]. Nothing past
/// the `---` line needs to be read.
pub struct PatchScanner {
    state: ParseState,
    hash: String,
    from_date: String,
    orig_author: String,
    orig_date: String,
    message: String,
    path: String,
    signature: Option<String>,
    seen: Ghost<Seq<Seq<char>>>,
    subject: Ghost<Seq<char>>,
}

impl PatchScanner {
    /// The lines handed to the scanner so far, while it was not done.
    pub closed spec fn lines_seen(&self) -> Seq<Seq<char>> {
        self.seen@
    }

    pub closed spec fn path_view(&self) -> Seq<char> {
        self.path@
    }

    pub closed spec fn signature_view(&self) -> Option<Seq<char>> {
        opt_string_view(self.signature)
    }

    /// The scanner's fields agree with the lines seen.
    pub closed spec fn wf(&self) -> bool {
        let ls = self.seen@;
        let i = ls.len();
        let state = self.state;
        let sig = self.signature_view();
        &&& state is Init ==> i == 0
        &&& state is Author ==> i == 1
        &&& state is Date ==> i == 2
        &&& state is Subject ==> i == 3
        &&& state is Message ==> i >= 4
        &&& state is Invalid ==> state->Invalid_0 != ParseError::UnterminatedMessage
            && parse_spec(ls, self.path@, sig) == Err::<PatchView, ParseError>(state->Invalid_0)
        &&& !(state is Invalid) && i >= 1 ==> hash_line(ls[0]) == Some(
            (self.hash@, self.from_date@),
        )
        &&& !(state is Invalid) && i >= 2 ==> author_line(ls[1]) == Some(self.orig_author@)
        &&& !(state is Invalid) && i >= 3 ==> date_line(ls[2]) == Some(self.orig_date@)
        &&& !(state is Invalid) && i >= 4 ==> subject_line(ls[3]) == Some(self.subject@)
        &&& state is Message ==> self.message@ == self.subject@ + "\n"@ + join_lines(
            ls.subrange(4, i as int),
        )
        &&& state is Message ==> forall|k: int| 4 <= k < i ==> !is_delimiter(#[trigger] ls[k])
        &&& state is Finish ==> i >= 5 && is_first_delimiter(ls, i - 1) && self.message@
            == message_of(self.subject@, ls.subrange(4, i - 1), sig)
    }

    proof fn lemma_done(&self)
        requires
            self.wf(),
        ensures
            (self.state is Finish || self.state is Invalid) <==> parse_spec(
                self.seen@,
                self.path@,
                self.signature_view(),
            ) != Err::<PatchView, ParseError>(ParseError::UnterminatedMessage),
    {
        let ls = self.seen@;
        if self.state is Message {
            assert forall|d: int| !is_first_delimiter(ls, d) by {
                if is_first_delimiter(ls, d) {
                    assert(!is_delimiter(ls[d]));
                }
            }
        }
    }

    /// A scanner for the file at `path` that has seen no line yet.
    pub fn new(path: &str, signature: Option<&str>) -> (r: PatchScanner)
        ensures
            r.wf(),
            r.lines_seen() == Seq::<Seq<char>>::empty(),
            r.path_view() == path@,
            r.signature_view() == opt_str_view(signature),
    {
        PatchScanner {
            state: ParseState::Init,
            hash: String::new(),
            from_date: String::new(),
            orig_author: String::new(),
            orig_date: String::new(),
            message: String::new(),
            path: String::from_str(path),
            signature: match signature {
                Some(s) => Some(String::from_str(s)),
                None => None,
            },
            seen: Ghost(Seq::empty()),
            subject: Ghost(Seq::empty()),
        }
    }

    /// Whether the outcome is settled by the lines seen, whatever follows them.
    pub fn is_done(&self) -> (r: bool)
        requires
            self.wf(),
        ensures
            r == (parse_spec(self.lines_seen(), self.path_view(), self.signature_view())
                != Err::<PatchView, ParseError>(ParseError::UnterminatedMessage)),
    {
        proof {
            self.lemma_done();
        }
        matches!(self.state, ParseState::Finish) || matches!(self.state, ParseState::Invalid(_))
    }

    /// Takes the next line of the file (without its line break). Once the
    /// scanner is done, lines are ignored.
    pub fn step(&mut self, line: &str)
        requires
            old(self).wf(),
        ensures
            final(self).wf(),
            final(self).path_view() == old(self).path_view(),
            final(self).signature_view() == old(self).signature_view(),
            final(self).lines_seen() == if parse_spec(
                old(self).lines_seen(),
                old(self).path_view(),
                old(self).signature_view(),
            ) != Err::<PatchView, ParseError>(ParseError::UnterminatedMessage) {
                old(self).lines_seen()
            } else {
                old(self).lines_seen().push(line@)
            },
    {
        if self.is_done() {
            return;
        }
        let ghost before = self.seen@;
        self.seen = Ghost(self.seen@.push(line@));
        let ghost ls = self.seen@;
        let ghost sig = self.signature_view();
        assert(forall|k: int| 0 <= k < before.len() ==> ls[k] == before[k]);
        assert(ls[before.len() as int] == line@);
        match self.state {
            ParseState::Init => {
                match match_hash_line(line) {
                    Some((h, d)) => {
                        self.hash = h;
                        self.from_date = d;
                        self.state = ParseState::Author;
                    },
                    None => {
                        self.state = ParseState::Invalid(ParseError::InvalidHashLine);
                    },
                }
            },
            ParseState::Author => {
                match match_author_line(line) {
                    Some(a) => {
                        self.orig_author = a;
                        self.state = ParseState::Date;
                    },
                    None => {
                        self.state = ParseState::Invalid(ParseError::InvalidAuthorLine);
                    },
                }
            },
            ParseState::Date => {
                match match_date_line(line) {
                    Some(d) => {
                        self.orig_date = d;
                        self.state = ParseState::Subject;
                    },
                    None => {
                        self.state = ParseState::Invalid(ParseError::InvalidDateLine);
                    },
                }
            },
            ParseState::Subject => {
                match match_subject_line(line) {
                    Some(s) => {
                        self.subject = Ghost(s@);
                        self.message = s;
                        self.message.append("\n");
                        assert(ls.subrange(4, 4) =~= Seq::<Seq<char>>::empty());
                        assert(self.message@ =~= self.subject@ + "\n"@ + join_lines(
                            ls.subrange(4, 4),
                        ));
                        self.state = ParseState::Message;
                    },
                    None => {
                        self.state = ParseState::Invalid(ParseError::InvalidSubjectLine);
                    },
                }
            },
            ParseState::Message => {
                if is_delimiter_line(line) {
                    let ghost body = self.message@;
                    match &self.signature {
                        Some(sig) => {
                            self.message.append("Signed-off-by: ");
                            self.message.append(sig.as_str());
                            self.message.append("\n");
                        },
                        None => {},
                    }
                    assert(ls.subrange(4, ls.len() - 1) =~= before.subrange(
                        4,
                        before.len() as int,
                    ));
                    assert(self.message@ =~= body + sign_off(sig));
                    self.state = ParseState::Finish;
                } else {
                    self.message.append(line);
                    self.message.append("\n");
                    proof {
                        let b = ls.subrange(4, ls.len() as int);
                        assert(b.drop_last() =~= before.subrange(4, before.len() as int));
                        assert(b.last() == line@);
                        assert(self.message@ =~= self.subject@ + "\n"@ + join_lines(b));
                    }
                }
            },
            ParseState::Finish => {},
            ParseState::Invalid(_) => {},
        }
    }

    /// The record or the error for the lines seen.
    pub fn finish(self) -> (r: Result<Patch, ParseError>)
        requires
            self.wf(),
        ensures
            result_view(r) == parse_spec(
                self.lines_seen(),
                self.path_view(),
                self.signature_view(),
            ),
    {
        proof {
            self.lemma_done();
        }
        match self.state {
            ParseState::Finish => {
                proof {
                    let ls = self.seen@;
                    let d = choose|d: int| is_first_delimiter(ls, d);
                    lemma_first_delimiter_unique(ls, d, ls.len() - 1);
                }
                Ok(
                    Patch {
                        hash: self.hash,
                        from_date: self.from_date,
                        orig_author: self.orig_author,
                        orig_date: self.orig_date,
                        message: self.message,
                        new_author: None,
                        path: self.path,
                    },
                )
            },
            ParseState::Invalid(e) => Err(e),
            _ => Err(ParseError::UnterminatedMessage),
        }
    }
}

/// Once the lines read so far settle the outcome (a record, or a header
/// error), the lines that follow them change nothing.
pub proof fn lemma_parse_settled(
    ls: Seq<Seq<char>>,
    rest: Seq<Seq<char>>,
    path: Seq<char>,
    signature: Option<Seq<char>>,
)
    requires
        parse_spec(ls, path, signature) != Err::<PatchView, ParseError>(
            ParseError::UnterminatedMessage,
        ),
    ensures
        parse_spec(ls + rest, path, signature) == parse_spec(ls, path, signature),
{
    let m = ls + rest;
    assert(forall|k: int| 0 <= k < ls.len() ==> m[k] == ls[k]);
    if parse_spec(ls, path, signature) is Ok {
        let d = choose|d: int| is_first_delimiter(ls, d);
        assert(is_first_delimiter(m, d));
        let e = choose|e: int| is_first_delimiter(m, e);
        lemma_first_delimiter_unique(m, d, e);
        assert(m.subrange(4, d) =~= ls.subrange(4, d));
    }
}

/// Parses the lines of an exported patch file (without their line breaks),
/// read from `path`, into a record. The four header lines must come first, in
/// order; the message runs from the subject to the first `---` line. With a
/// signature, the message ends with a `Signed-off-by:` line for it.
pub fn parse_lines(lines: &Vec<String>, path: &str, signature: Option<&str>) -> (r: Result<
    Patch,
    ParseError,
>)
    ensures
        result_view(r) == parse_spec(lines_view(lines@), path@, opt_str_view(signature)),
{
    let ghost ls = lines_view(lines@);
    let n = lines.len();
    let mut scanner = PatchScanner::new(path, signature);
    let mut i: usize = 0;
    while i < n && !scanner.is_done()
        invariant
            i <= n,
            n == lines@.len(),
            ls == lines_view(lines@),
            scanner.wf(),
            scanner.lines_seen() == ls.subrange(0, i as int),
            scanner.path_view() == path@,
            scanner.signature_view() == opt_str_view(signature),
        decreases n - i,
    {
        let line = lines[i].as_str();
        assert(ls[i as int] == line@);
        scanner.step(line);
        assert(ls.subrange(0, i + 1) =~= ls.subrange(0, i as int).push(line@));
        i += 1;
    }
    proof {
        if i < n {
            lemma_parse_settled(
                ls.subrange(0, i as int),
                ls.subrange(i as int, n as int),
                path@,
                opt_str_view(signature),
            );
            assert(ls.subrange(0, i as int) + ls.subrange(i as int, n as int) =~= ls);
        } else {
            assert(ls.subrange(0, n as int) =~= ls);
        }
    }
    scanner.finish()
}

/// The error for a malformed header line at index `i` (0 to 3).
pub open spec fn header_error(i: int) -> ParseError {
    if i == 0 {
        ParseError::InvalidHashLine
    } else if i == 1 {
        ParseError::InvalidAuthorLine
    } else if i == 2 {
        ParseError::InvalidDateLine
    } else {
        ParseError::InvalidSubjectLine
    }
}

/// Whether `l` has the shape of header line `i` (0 to 3).
pub open spec fn fits_header(i: int, l: Seq<char>) -> bool {
    if i == 0 {
        hash_line(l) is Some
    } else if i == 1 {
        author_line(l) is Some
    } else if i == 2 {
        date_line(l) is Some
    } else {
        subject_line(l) is Some
    }
}

/// A parsed record holds the 40 hex digits of the first line as its hash, and
/// its message is the subject text, a newline, the body lines up to (not
/// including) the first `---` line, and the sign-off if any.
pub proof fn lemma_parsed_record(ls: Seq<Seq<char>>, path: Seq<char>, signature: Option<Seq<char>>)
    requires
        parse_spec(ls, path, signature) is Ok,
    ensures
        ({
            let p = parse_spec(ls, path, signature).unwrap();
            &&& p.hash == ls[0].subrange(5, 45)
            &&& p.hash.len() == 40
            &&& all_hex(p.hash)
            &&& p.orig_author == author_line(ls[1]).unwrap()
            &&& p.path == path
            &&& exists|d: int|
                {
                    &&& #[trigger] is_first_delimiter(ls, d)
                    &&& p.message == subject_line(ls[3]).unwrap() + "\n"@ + join_lines(
                        ls.subrange(4, d),
                    ) + sign_off(signature)
                    &&& forall|i: int|
                        0 <= i < d - 4 ==> !is_delimiter(#[trigger] ls.subrange(4, d)[i])
                }
        }),
{
    let d = choose|d: int| is_first_delimiter(ls, d);
    assert forall|i: int| 0 <= i < d - 4 implies !is_delimiter(#[trigger] ls.subrange(4, d)[i]) by {
        assert(ls.subrange(4, d)[i] == ls[4 + i]);
    }
}

/// Parsing is a function of its inputs: the same lines, path and signature
/// always give the same outcome, field for field.
pub proof fn lemma_parse_deterministic(
    ls1: Seq<Seq<char>>,
    ls2: Seq<Seq<char>>,
    path1: Seq<char>,
    path2: Seq<char>,
    signature1: Option<Seq<char>>,
    signature2: Option<Seq<char>>,
)
    requires
        ls1 == ls2,
        path1 == path2,
        signature1 == signature2,
    ensures
        parse_spec(ls1, path1, signature1) == parse_spec(ls2, path2, signature2),
{
}

/// A signature adds exactly one line, `Signed-off-by: <signature>`, at the end
/// of the message and changes nothing else; without one the message ends with
/// the body.
pub proof fn lemma_sign_off(ls: Seq<Seq<char>>, path: Seq<char>, signature: Seq<char>)
    ensures
        parse_spec(ls, path, Some(signature)) is Ok <==> parse_spec(ls, path, None) is Ok,
        parse_spec(ls, path, None) is Err ==> parse_spec(ls, path, Some(signature))
            == parse_spec(ls, path, None),
        parse_spec(ls, path, None) is Ok ==> ({
            let without = parse_spec(ls, path, None).unwrap();
            let with = parse_spec(ls, path, Some(signature)).unwrap();
            &&& with == (PatchView {
                message: without.message + "Signed-off-by: "@ + signature + "\n"@,
                ..without
            })
            &&& exists|d: int|
                #[trigger] is_first_delimiter(ls, d) && without.message == subject_line(
                    ls[3],
                ).unwrap() + "\n"@ + join_lines(ls.subrange(4, d))
        }),
{
    if parse_spec(ls, path, None) is Ok {
        let d = choose|d: int| is_first_delimiter(ls, d);
        let base = subject_line(ls[3]).unwrap() + "\n"@ + join_lines(ls.subrange(4, d));
        assert(message_of(subject_line(ls[3]).unwrap(), ls.subrange(4, d), None) =~= base);
        assert(message_of(subject_line(ls[3]).unwrap(), ls.subrange(4, d), Some(signature))
            =~= base + "Signed-off-by: "@ + signature + "\n"@);
    }
}

/// Cutting the lines off anywhere before the first `---` line makes the
/// parse fail.
pub proof fn lemma_truncated_fails(
    ls: Seq<Seq<char>>,
    path: Seq<char>,
    signature: Option<Seq<char>>,
    d: int,
    t: int,
)
    requires
        is_first_delimiter(ls, d),
        0 <= t <= d,
    ensures
        parse_spec(ls.subrange(0, t), path, signature) is Err,
{
    let cut = ls.subrange(0, t);
    assert forall|e: int| !is_first_delimiter(cut, e) by {
        if is_first_delimiter(cut, e) {
            assert(cut[e] == ls[e]);
            assert(!is_delimiter(ls[e]));
        }
    }
}

/// In a file that parses, replacing header line `i` by a line without its
/// shape makes the parse fail with the error of that stage.
pub proof fn lemma_bad_header_fails(
    ls: Seq<Seq<char>>,
    path: Seq<char>,
    signature: Option<Seq<char>>,
    i: int,
    bad: Seq<char>,
)
    requires
        parse_spec(ls, path, signature) is Ok,
        0 <= i < 4,
        !fits_header(i, bad),
    ensures
        parse_spec(ls.update(i, bad), path, signature) == Err::<PatchView, ParseError>(
            header_error(i),
        ),
{
    let m = ls.update(i, bad);
    assert(m[0] == if i == 0 { bad } else { ls[0] });
    assert(m[1] == if i == 1 { bad } else { ls[1] });
    assert(m[2] == if i == 2 { bad } else { ls[2] });
    assert(m[3] == if i == 3 { bad } else { ls[3] });
}

} // verus!
