//! The request line of the Finger protocol and its parser.

use crate::text::chars_of;
use vstd::prelude::*;
use vstd::string::*;

verus! {

/// One parsed request. The two text fields are slices of the parsed line.
#[derive(Clone, Copy, Debug)]
pub struct Request<'a> {
    /// Whether the verbose flag `/W` was given.
    pub verbose: bool,
    /// The user that was queried; without one the request asks for the list of users.
    pub user: Option<&'a str>,
    /// The forwarding suffix, from its `@` to the end of the line.
    pub forwarding: Option<&'a str>,
}

/// What a request holds, as plain values.
pub ghost struct RequestView {
    pub verbose: bool,
    pub user: Option<Seq<char>>,
    pub forwarding: Option<Seq<char>>,
}

impl<'a> View for Request<'a> {
    type V = RequestView;

    open spec fn view(&self) -> RequestView {
        RequestView {
            verbose: self.verbose,
            user: match self.user {
                Some(user) => Some(user@),
                None => None,
            },
            forwarding: match self.forwarding {
                Some(forwarding) => Some(forwarding@),
                None => None,
            },
        }
    }
}

/// Why a line is no request.
#[derive(Clone, Copy, Debug, PartialEq, Eq, Structural)]
pub enum ParseError {
    /// The line does not end with CRLF.
    Unterminated,
    /// The verbose flag is followed by something other than a space.
    MissingSpace,
    /// Input is left after the user name and the forwarding suffix.
    TrailingInput,
}

/// The classes of characters that the grammar tells apart.
#[derive(Clone, Copy, Debug, PartialEq, Eq, Structural)]
pub enum CharClass {
    /// The ASCII space.
    Space,
    /// Letters, digits, `_`, `.` and `-`.
    Name,
    /// Anything but a carriage return or a line feed.
    Host,
}

/// Whether `c` may stand in a user name.
pub open spec fn is_name_char(c: char) -> bool {
    ||| 'a' <= c <= 'z'
    ||| 'A' <= c <= 'Z'
    ||| '0' <= c <= '9'
    ||| c == '_'
    ||| c == '.'
    ||| c == '-'
}

/// Whether `c` belongs to `class`.
pub open spec fn in_class(class: CharClass, c: char) -> bool {
    match class {
        CharClass::Space => c == ' ',
        CharClass::Name => is_name_char(c),
        CharClass::Host => c != '\r' && c != '\n',
    }
}

/// Where the longest run of `class` characters that starts at `from` ends.
pub open spec fn run_end(s: Seq<char>, from: int, class: CharClass) -> int
    decreases s.len() - from,
{
    if 0 <= from < s.len() && in_class(class, s[from]) {
        run_end(s, from + 1, class)
    } else {
        from
    }
}

/// Whether `body` starts with the verbose flag.
pub open spec fn has_flag(body: Seq<char>) -> bool {
    body.len() >= 2 && body[0] == '/' && body[1] == 'W'
}

/// Whether `line` ends with CRLF.
pub open spec fn is_terminated(line: Seq<char>) -> bool {
    line.len() >= 2 && line[line.len() - 2] == '\r' && line[line.len() - 1] == '\n'
}

/// The request that lists the users.
pub open spec fn list_view(verbose: bool) -> RequestView {
    RequestView { verbose, user: None, forwarding: None }
}

/// The grammar on a line without its CRLF: an optional `/W`; then nothing, or
/// (after `/W`, one or more spaces and) an optional user name followed by an
/// optional `@` suffix that runs to the end of the line.
pub open spec fn parse_body(body: Seq<char>) -> Result<RequestView, ParseError> {
    let verbose = has_flag(body);
    let name_start = if verbose {
        run_end(body, 2, CharClass::Space)
    } else {
        0
    };
    let name_end = run_end(body, name_start, CharClass::Name);
    if verbose && body.len() == 2 {
        Ok(list_view(true))
    } else if verbose && name_start == 2 {
        Err(ParseError::MissingSpace)
    } else if name_end < body.len() && (body[name_end] != '@' || run_end(
        body,
        name_end + 1,
        CharClass::Host,
    ) < body.len()) {
        Err(ParseError::TrailingInput)
    } else {
        Ok(
            RequestView {
                verbose,
                user: if name_start < name_end {
                    Some(body.subrange(name_start, name_end))
                } else {
                    None
                },
                forwarding: if name_end < body.len() {
                    Some(body.subrange(name_end, body.len() as int))
                } else {
                    None
                },
            },
        )
    }
}

/// The grammar on a whole line, which must end with CRLF.
pub open spec fn parse_line(line: Seq<char>) -> Result<RequestView, ParseError> {
    if is_terminated(line) {
        parse_body(line.take(line.len() - 2))
    } else {
        Err(ParseError::Unterminated)
    }
}

/// A run ends where the scan stopped: everything before is in the class, and
/// what stands there is not.
pub proof fn lemma_run_end(s: Seq<char>, from: int, to: int, class: CharClass)
    requires
        0 <= from <= to <= s.len(),
        forall|k: int| from <= k < to ==> in_class(class, #[trigger] s[k]),
        to == s.len() || !in_class(class, s[to]),
    ensures
        run_end(s, from, class) == to,
    decreases to - from,
{
    if from < to {
        lemma_run_end(s, from + 1, to, class);
    }
}

/// What a run is made of: it stays inside the text, all of it is in the
/// class, and it ends at the end of the text or before a character that is not.
pub proof fn lemma_run_end_holds(s: Seq<char>, from: int, class: CharClass)
    requires
        0 <= from <= s.len(),
    ensures
        from <= run_end(s, from, class) <= s.len(),
        forall|k: int| from <= k < run_end(s, from, class) ==> in_class(class, #[trigger] s[k]),
        run_end(s, from, class) == s.len() || !in_class(class, s[run_end(s, from, class)]),
    decreases s.len() - from,
{
    if from < s.len() && in_class(class, s[from]) {
        lemma_run_end_holds(s, from + 1, class);
    }
}

/// A user name: one or more letters, digits, `_`, `.` or `-`.
pub open spec fn is_user_name(name: Seq<char>) -> bool {
    name.len() > 0 && forall|k: int| 0 <= k < name.len() ==> is_name_char(#[trigger] name[k])
}

/// A forwarding suffix: an `@`, then anything but a line break.
pub open spec fn is_forwarding(suffix: Seq<char>) -> bool {
    &&& suffix.len() > 0
    &&& suffix[0] == '@'
    &&& forall|k: int| 1 <= k < suffix.len() ==> in_class(CharClass::Host, #[trigger] suffix[k])
}

/// Whether the parts make a request of the grammar: the user name and the
/// suffix are well formed where given, and spaces stand only after the
/// verbose flag, at least one of them unless nothing else follows.
pub open spec fn in_grammar(request: RequestView, spaces: nat) -> bool {
    &&& request.user is Some ==> is_user_name(request.user->0)
    &&& request.forwarding is Some ==> is_forwarding(request.forwarding->0)
    &&& if request.verbose {
        spaces >= 1 || (request.user is None && request.forwarding is None)
    } else {
        spaces == 0
    }
}

/// A text that may be absent.
pub open spec fn text_or_empty(text: Option<Seq<char>>) -> Seq<char> {
    match text {
        Some(text) => text,
        None => Seq::empty(),
    }
}

/// The verbose flag with the spaces after it, or nothing.
pub open spec fn flag_text(verbose: bool, spaces: nat) -> Seq<char> {
    if verbose {
        seq!['/', 'W'] + Seq::new(spaces, |k: int| ' ')
    } else {
        Seq::empty()
    }
}

/// The line that the parts make: flag and spaces, user name, forwarding
/// suffix, CRLF.
pub open spec fn line_text(request: RequestView, spaces: nat) -> Seq<char> {
    flag_text(request.verbose, spaces) + text_or_empty(request.user) + text_or_empty(
        request.forwarding,
    ) + seq!['\r', '\n']
}

/// Every line of the grammar parses, and to the parts it was made of: the
/// parser is total on the grammar, and no line has two readings.
pub proof fn lemma_grammar_parses(request: RequestView, spaces: nat)
    requires
        in_grammar(request, spaces),
    ensures
        parse_line(line_text(request, spaces)) == Ok::<RequestView, ParseError>(request),
{
    let flag = flag_text(request.verbose, spaces);
    let user = text_or_empty(request.user);
    let suffix = text_or_empty(request.forwarding);
    let body = flag + user + suffix;
    let line = line_text(request, spaces);
    assert(line.take(line.len() - 2) =~= body);
    let name_start = flag.len() as int;
    let name_end = name_start + user.len();
    if request.verbose {
        assert(body[0] == '/' && body[1] == 'W');
        assert forall|k: int| 2 <= k < name_start implies in_class(
            CharClass::Space,
            #[trigger] body[k],
        ) by {
            assert(body[k] == flag[k]);
        }
        if name_start < body.len() {
            assert(body[name_start] == if user.len() > 0 {
                user[0]
            } else {
                suffix[0]
            });
        }
        lemma_run_end(body, 2, name_start, CharClass::Space);
    } else if body.len() > 0 {
        assert(body[0] == if user.len() > 0 {
            user[0]
        } else {
            suffix[0]
        });
    }
    assert forall|k: int| name_start <= k < name_end implies in_class(
        CharClass::Name,
        #[trigger] body[k],
    ) by {
        assert(body[k] == user[k - name_start]);
    }
    if name_end < body.len() {
        assert(body[name_end] == suffix[0]);
        assert forall|k: int| name_end + 1 <= k < body.len() implies in_class(
            CharClass::Host,
            #[trigger] body[k],
        ) by {
            assert(body[k] == suffix[k - name_end]);
        }
        lemma_run_end(body, name_end + 1, body.len() as int, CharClass::Host);
    }
    lemma_run_end(body, name_start, name_end, CharClass::Name);
    assert(body.subrange(name_start, name_end) =~= user);
    assert(body.subrange(name_end, body.len() as int) =~= suffix);
}

/// Every line that parses is a line of the grammar, made of the parts that
/// the parser gives.
pub proof fn lemma_parsed_is_grammar(line: Seq<char>, request: RequestView)
    requires
        parse_line(line) == Ok::<RequestView, ParseError>(request),
    ensures
        exists|spaces: nat| in_grammar(request, spaces) && line == line_text(request, spaces),
{
    let body = line.take(line.len() - 2);
    let verbose = has_flag(body);
    let name_start = if verbose {
        run_end(body, 2, CharClass::Space)
    } else {
        0
    };
    if verbose {
        lemma_run_end_holds(body, 2, CharClass::Space);
    }
    lemma_run_end_holds(body, name_start, CharClass::Name);
    let name_end = run_end(body, name_start, CharClass::Name);
    if name_end < body.len() {
        lemma_run_end_holds(body, name_end + 1, CharClass::Host);
    }
    let spaces = if verbose {
        (name_start - 2) as nat
    } else {
        0
    };
    if request.user is Some {
        assert(is_user_name(request.user->0));
    }
    if request.forwarding is Some {
        assert(is_forwarding(request.forwarding->0));
    }
    assert(in_grammar(request, spaces));
    let len = body.len() as int;
    assert(line =~= body + seq!['\r', '\n']);
    assert(flag_text(verbose, spaces) =~= body.take(name_start));
    assert(text_or_empty(request.user) =~= body.subrange(name_start, name_end));
    assert(text_or_empty(request.forwarding) =~= body.subrange(name_end, len));
    assert(body =~= body.take(name_start) + body.subrange(name_start, name_end) + body.subrange(
        name_end,
        len,
    ));
    assert(line == line_text(request, spaces));
}

/// Whether `c` belongs to `class`.
pub fn char_in_class(class: CharClass, c: char) -> (yes: bool)
    ensures
        yes == in_class(class, c),
{
    match class {
        CharClass::Space => c == ' ',
        CharClass::Name => ('a' <= c && c <= 'z') || ('A' <= c && c <= 'Z') || ('0' <= c && c
            <= '9') || c == '_' || c == '.' || c == '-',
        CharClass::Host => c != '\r' && c != '\n',
    }
}

/// Scans the first `limit` characters of `chars` from `from` for the end of
/// the run of `class` characters that starts there.
pub fn scan_run(chars: &Vec<char>, from: usize, limit: usize, class: CharClass) -> (to: usize)
    requires
        from <= limit <= chars.len(),
    ensures
        to == run_end(chars@.take(limit as int), from as int, class),
        from <= to <= limit,
{
    let ghost s = chars@.take(limit as int);
    let mut to: usize = from;
    while to < limit && char_in_class(class, chars[to])
        invariant
            from <= to <= limit <= chars.len(),
            s == chars@.take(limit as int),
            forall|k: int| from <= k < to ==> in_class(class, #[trigger] s[k]),
        decreases limit - to,
    {
        to += 1;
    }
    proof {
        lemma_run_end(s, from as int, to as int, class);
    }
    to
}

impl<'a> Request<'a> {
    /// The request that just lists the users of the server.
    pub fn new_list(verbose: bool) -> (request: Self)
        ensures
            request@ == list_view(verbose),
    {
        Request { verbose, user: None, forwarding: None }
    }

    /// Parses one line, CRLF included, into a request whose text fields are
    /// slices of `input`. The whole line must match the grammar.
    pub fn from_str(input: &'a str) -> (parsed: Result<Self, ParseError>)
        ensures
            match parsed {
                Ok(request) => parse_line(input@) == Ok::<RequestView, ParseError>(request@),
                Err(error) => parse_line(input@) == Err::<RequestView, ParseError>(error),
            },
    {
        let chars = chars_of(input);
        let n = chars.len();
        if n < 2 || chars[n - 2] != '\r' || chars[n - 1] != '\n' {
            return Err(ParseError::Unterminated);
        }
        let end = n - 2;
        let ghost body = input@.take(end as int);
        let verbose = end >= 2 && chars[0] == '/' && chars[1] == 'W';
        if verbose && end == 2 {
            return Ok(Request::new_list(true));
        }
        let name_start = if verbose {
            scan_run(&chars, 2, end, CharClass::Space)
        } else {
            0
        };
        if verbose && name_start == 2 {
            return Err(ParseError::MissingSpace);
        }
        let name_end = scan_run(&chars, name_start, end, CharClass::Name);
        if name_end < end {
            if chars[name_end] != '@' {
                return Err(ParseError::TrailingInput);
            }
            let host_end = scan_run(&chars, name_end + 1, end, CharClass::Host);
            if host_end < end {
                return Err(ParseError::TrailingInput);
            }
        }
        let user = if name_start < name_end {
            Some(input.substring_char(name_start, name_end))
        } else {
            None
        };
        let forwarding = if name_end < end {
            Some(input.substring_char(name_end, end))
        } else {
            None
        };
        proof {
            assert(input@.subrange(name_start as int, name_end as int) =~= body.subrange(
                name_start as int,
                name_end as int,
            ));
            assert(input@.subrange(name_end as int, end as int) =~= body.subrange(
                name_end as int,
                body.len() as int,
            ));
        }
        Ok(Request { verbose, user, forwarding })
    }
}

} // verus!
