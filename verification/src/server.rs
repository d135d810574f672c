//! One exchange: from the bytes a client sent to the reply it gets.

use crate::config::{
    distinct_names, lemma_find_first, lemma_settled_replies_terminated, Users, UsersView, UserView,
};
use crate::text::crlf_terminated;
use crate::request::{list_view, parse_line, ParseError, Request, RequestView};
use vstd::prelude::*;
use vstd::slice::slice_subrange;
use vstd::string::*;
use vstd::utf8::{decode_utf8, encode_utf8_decode_utf8, valid_utf8};

verus! {

/// The port of the Finger protocol.
pub const FINGER_PORT: u16 = 79;

/// The most bytes of a request that are read.
pub const SANE_REQUEST_LENGTH: usize = 1024;

/// The reply to a request that asks for forwarding.
pub const REPLY_NO_FORWARDING: &'static str = "Finger forwarding service denied\r\n";

/// The reply to a request for the list of users where listing is disabled.
pub const REPLY_NO_LISTING: &'static str = "Finger online user list denied\r\n";

/// The reply to a request for a user that the directory does not have.
pub const REPLY_USER_NOT_FOUND: &'static str = "User not found\r\n";

/// The names of the users that are listed, in the directory's order.
pub open spec fn listed_names(users: Seq<(Seq<char>, UserView)>) -> Seq<Seq<char>>
    decreases users.len(),
{
    if users.len() == 0 {
        Seq::empty()
    } else if users.last().1.unlisted {
        listed_names(users.drop_last())
    } else {
        listed_names(users.drop_last()).push(users.last().0)
    }
}

/// The names, each followed by CRLF.
pub open spec fn join_lines(names: Seq<Seq<char>>) -> Seq<char>
    decreases names.len(),
{
    if names.len() == 0 {
        Seq::empty()
    } else {
        join_lines(names.drop_last()) + names.last() + seq!['\r', '\n']
    }
}

/// The reply that lists the users.
pub open spec fn listing_text(users: Seq<(Seq<char>, UserView)>) -> Seq<char> {
    join_lines(listed_names(users))
}

/// Whether some user of that name is listed.
pub open spec fn is_listed(users: Seq<(Seq<char>, UserView)>, name: Seq<char>) -> bool {
    exists|i: int| 0 <= i < users.len() && (#[trigger] users[i]).0 == name && !users[i].1.unlisted
}

/// The list holds exactly the names of the users that are not unlisted.
pub proof fn lemma_listed_names_exact(users: Seq<(Seq<char>, UserView)>, name: Seq<char>)
    ensures
        listed_names(users).contains(name) <==> is_listed(users, name),
    decreases users.len(),
{
    if users.len() > 0 {
        let rest = users.drop_last();
        let last = users.last();
        let listed = listed_names(rest);
        lemma_listed_names_exact(rest, name);
        if is_listed(rest, name) {
            let i = choose|i: int| 0 <= i < rest.len() && (#[trigger] rest[i]).0 == name && !rest[i].1.unlisted;
            assert(users[i] == rest[i]);
        }
        if is_listed(users, name) {
            let i = choose|i: int| 0 <= i < users.len() && (#[trigger] users[i]).0 == name && !users[i].1.unlisted;
            if i < rest.len() {
                assert(rest[i] == users[i]);
            }
        }
        if !last.1.unlisted {
            let all = listed.push(last.0);
            assert(users[users.len() - 1] == last);
            assert(all[listed.len() as int] == last.0);
            if listed.contains(name) {
                let k = choose|k: int| 0 <= k < listed.len() && listed[k] == name;
                assert(all[k] == name);
            }
            if all.contains(name) {
                let k = choose|k: int| 0 <= k < all.len() && all[k] == name;
                if k < listed.len() {
                    assert(listed[k] == name);
                }
            }
        }
    }
}

/// Where no two users share a name, no name is listed twice.
pub proof fn lemma_listed_names_distinct(users: Seq<(Seq<char>, UserView)>)
    requires
        distinct_names(users),
    ensures
        listed_names(users).no_duplicates(),
    decreases users.len(),
{
    if users.len() > 0 {
        let rest = users.drop_last();
        let last = users.last();
        assert(distinct_names(rest)) by {
            assert forall|i: int, j: int| 0 <= i < j < rest.len() implies (#[trigger] rest[i]).0 != (
            #[trigger] rest[j]).0 by {
                assert(rest[i] == users[i] && rest[j] == users[j]);
            }
        }
        lemma_listed_names_distinct(rest);
        if !last.1.unlisted {
            let listed = listed_names(rest);
            lemma_listed_names_exact(rest, last.0);
            if is_listed(rest, last.0) {
                let i = choose|i: int| 0 <= i < rest.len() && (#[trigger] rest[i]).0 == last.0 && !rest[i].1.unlisted;
                assert(users[i] == rest[i]);
                assert(users[users.len() - 1] == last);
            }
            assert(!listed.contains(last.0));
            let all = listed.push(last.0);
            assert forall|i: int, j: int| 0 <= i < all.len() && 0 <= j < all.len() && i != j implies all[i] != all[j] by {
                if i < listed.len() {
                    assert(listed[i] == all[i]);
                }
                if j < listed.len() {
                    assert(listed[j] == all[j]);
                }
            }
        }
    }
}

/// The reply to a request: forwarding is denied; a user's text is its `info`,
/// or its `long_info` in verbose mode; without a user the users are listed,
/// where the directory allows it.
pub open spec fn reply_text(users: UsersView, request: RequestView) -> Seq<char> {
    if request.forwarding is Some {
        REPLY_NO_FORWARDING@
    } else if request.user is Some {
        match users.lookup(request.user->0) {
            Some(user) => if request.verbose {
                user.long_info_text()
            } else {
                user.info_text()
            },
            None => REPLY_USER_NOT_FOUND@,
        }
    } else if users.enable_index {
        listing_text(users.users)
    } else {
        REPLY_NO_LISTING@
    }
}

/// The name of every listed user, each followed by CRLF, in the directory's
/// order.
pub fn listing(users: &Users) -> (reply: String)
    ensures
        reply@ == listing_text(users@.users),
{
    let ghost all = users@.users;
    let mut reply = String::new();
    let mut i: usize = 0;
    proof {
        reveal_strlit("\r\n");
        assert("\r\n"@ =~= seq!['\r', '\n']);
    }
    while i < users.users.len()
        invariant
            0 <= i <= users.users.len(),
            all == users@.users,
            "\r\n"@ == seq!['\r', '\n'],
            reply@ == listing_text(all.take(i as int)),
        decreases users.users.len() - i,
    {
        proof {
            assert(all.take(i + 1).drop_last() =~= all.take(i as int));
            let names = listed_names(all.take(i as int));
            assert(names.push(all[i as int].0).drop_last() =~= names);
        }
        if !users.users[i].1.unlisted {
            reply.append(users.users[i].0.as_str());
            reply.append("\r\n");
        }
        i += 1;
    }
    proof {
        assert(all.take(i as int) =~= all);
    }
    reply
}

/// Where listing is disabled, a request for the list gets the fixed denial
/// whatever the directory holds; where it is enabled, the reply is the listed
/// names, each followed by CRLF: exactly the names of the users that are not
/// unlisted, none of them twice.
pub proof fn lemma_list_reply(users: UsersView, verbose: bool, name: Seq<char>)
    requires
        users.wf(),
    ensures
        !users.enable_index ==> reply_text(users, list_view(verbose)) == REPLY_NO_LISTING@,
        users.enable_index ==> reply_text(users, list_view(verbose)) == join_lines(
            listed_names(users.users),
        ),
        listed_names(users.users).no_duplicates(),
        listed_names(users.users).contains(name) <==> is_listed(users.users, name),
{
    lemma_listed_names_exact(users.users, name);
    lemma_listed_names_distinct(users.users);
}

/// The reply to a query for a user ends its last line: where the directory is
/// well formed and the user found asks for normalisation and holds a text,
/// every line of the reply ends with CRLF.
pub proof fn lemma_user_reply_terminated(users: UsersView, request: RequestView)
    requires
        users.wf(),
        request.forwarding is None,
        request.user is Some,
        users.lookup(request.user->0) is Some,
        users.lookup(request.user->0)->0.fix_crlf,
        users.lookup(request.user->0)->0.info is Some || users.lookup(
            request.user->0,
        )->0.long_info is Some,
    ensures
        crlf_terminated(reply_text(users, request)),
{
    let name = request.user->0;
    let user = users.lookup(name)->0;
    lemma_find_first(users.users, name);
    let i = choose|i: int|
        0 <= i < users.users.len() && #[trigger] users.users[i] == (name, user) && forall|k: int|
            0 <= k < i ==> (#[trigger] users.users[k]).0 != name;
    assert(users.users[i].1.settled());
    lemma_settled_replies_terminated(user);
}

/// The reply to `request` from the directory `users`.
pub fn reply(users: &Users, request: &Request) -> (reply: String)
    ensures
        reply@ == reply_text(users@, request@),
{
    if request.forwarding.is_some() {
        String::from_str(REPLY_NO_FORWARDING)
    } else if let Some(name) = request.user {
        match users.find(name) {
            Some(user) => if request.verbose {
                String::from_str(user.long_info())
            } else {
                String::from_str(user.info())
            },
            None => String::from_str(REPLY_USER_NOT_FOUND),
        }
    } else if users.enable_index {
        listing(users)
    } else {
        String::from_str(REPLY_NO_LISTING)
    }
}

/// Why an exchange ends without a reply.
#[derive(Clone, Copy, Debug, PartialEq, Eq, Structural)]
pub enum RequestError {
    /// The bytes read are not UTF-8 text.
    NotText,
    /// The line read is no request.
    Malformed(ParseError),
}

/// Where the first line feed of `bytes` stands at or after `from`, or the
/// length of `bytes` if there is none.
pub open spec fn line_feed_from(bytes: Seq<u8>, from: int) -> int
    decreases bytes.len() - from,
{
    if 0 <= from < bytes.len() && bytes[from] != 0x0a {
        line_feed_from(bytes, from + 1)
    } else {
        from
    }
}

/// What is read of the bytes a client sends: at most `SANE_REQUEST_LENGTH` of
/// them, and none after the first line feed.
pub open spec fn line_of(received: Seq<u8>) -> Seq<u8> {
    let capped = if received.len() > SANE_REQUEST_LENGTH {
        received.take(SANE_REQUEST_LENGTH as int)
    } else {
        received
    };
    let feed = line_feed_from(capped, 0);
    if feed < capped.len() {
        capped.take(feed + 1)
    } else {
        capped
    }
}

/// The outcome of an exchange in which the client sends `received`: the reply,
/// or the reason why there is none.
pub open spec fn served(users: UsersView, received: Seq<u8>) -> Result<Seq<char>, RequestError> {
    let line = line_of(received);
    if !valid_utf8(line) {
        Err(RequestError::NotText)
    } else {
        match parse_line(decode_utf8(line)) {
            Ok(request) => Ok(reply_text(users, request)),
            Err(error) => Err(RequestError::Malformed(error)),
        }
    }
}

/// The search for a line feed never leaves the bytes and never goes backwards.
pub proof fn lemma_line_feed_bounds(bytes: Seq<u8>, from: int)
    requires
        0 <= from <= bytes.len(),
    ensures
        from <= line_feed_from(bytes, from) <= bytes.len(),
    decreases bytes.len() - from,
{
    if from < bytes.len() && bytes[from] != 0x0a {
        lemma_line_feed_bounds(bytes, from + 1);
    }
}

/// What is read never exceeds the cap, however much the client sends.
pub proof fn lemma_line_is_bounded(received: Seq<u8>)
    ensures
        line_of(received).len() <= SANE_REQUEST_LENGTH,
        line_of(received).len() <= received.len(),
{
    if received.len() > SANE_REQUEST_LENGTH {
        lemma_line_feed_bounds(received.take(SANE_REQUEST_LENGTH as int), 0);
    } else {
        lemma_line_feed_bounds(received, 0);
    }
}

/// `core::str::from_utf8`: succeeds exactly on well-formed UTF-8, and then
/// gives the text whose encoding is `bytes`.
#[verifier::external_body]
fn text_of(bytes: &[u8]) -> (text: Option<&str>)
    ensures
        text is Some <==> valid_utf8(bytes@),
        text is Some ==> text->0.spec_bytes() == bytes@,
{
    core::str::from_utf8(bytes).ok()
}

/// The part of `received` that is read: its first `SANE_REQUEST_LENGTH` bytes
/// at most, up to and including the first line feed among them.
pub fn request_line(received: &[u8]) -> (line: &[u8])
    ensures
        line@ == line_of(received@),
{
    let limit = if received.len() > SANE_REQUEST_LENGTH {
        SANE_REQUEST_LENGTH
    } else {
        received.len()
    };
    let ghost capped = received@.take(limit as int);
    let mut feed: usize = 0;
    while feed < limit && received[feed] != 0x0a
        invariant
            0 <= feed <= limit <= received.len(),
            capped == received@.take(limit as int),
            line_feed_from(capped, 0) == line_feed_from(capped, feed as int),
        decreases limit - feed,
    {
        feed += 1;
    }
    let end = if feed < limit {
        feed + 1
    } else {
        limit
    };
    let line = slice_subrange(received, 0, end);
    proof {
        if received.len() <= SANE_REQUEST_LENGTH {
            assert(capped =~= received@);
        }
        assert(line_feed_from(capped, feed as int) == feed);
        assert(line@ =~= line_of(received@));
    }
    line
}

/// Runs one exchange on the bytes a client sent: reads the line, parses it,
/// and gives the reply. There is no reply where the line is cut off, is not
/// text, or is no request.
pub fn serve(users: &Users, received: &[u8]) -> (outcome: Result<String, RequestError>)
    ensures
        match outcome {
            Ok(reply) => served(users@, received@) == Ok::<Seq<char>, RequestError>(reply@),
            Err(error) => served(users@, received@) == Err::<Seq<char>, RequestError>(error),
        },
{
    let line = request_line(received);
    match text_of(line) {
        None => Err(RequestError::NotText),
        Some(text) => {
            proof {
                encode_utf8_decode_utf8(text@);
            }
            match Request::from_str(text) {
                Ok(request) => Ok(reply(users, &request)),
                Err(error) => Err(RequestError::Malformed(error)),
            }
        },
    }
}

} // verus!
