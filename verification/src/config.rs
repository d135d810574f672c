//! The directory of users: its entries, how an entry is decoded and
//! normalised, and the store that holds the directory in use.

use crate::text::{crlf_fixed, crlf_terminated, fix_string_crlf, lemma_crlf_fixed_terminated};
use std::sync::Arc;
use vstd::prelude::*;
use vstd::string::*;
use vstd::utf8::is_ascii_chars;

verus! {

/// One user of the directory.
#[derive(Clone, Debug)]
pub struct User {
    /// Whether the line endings of `info` and `long_info` are rewritten to
    /// CRLF, with a final CRLF added where one is missing.
    pub fix_crlf: bool,
    /// The text returned when this user is queried.
    pub info: Option<String>,
    /// The text returned when this user is queried in verbose mode.
    pub long_info: Option<String>,
    /// Whether this user is left out when the users are listed.
    pub unlisted: bool,
}

/// What a user holds, as plain values.
pub ghost struct UserView {
    pub fix_crlf: bool,
    pub info: Option<Seq<char>>,
    pub long_info: Option<Seq<char>>,
    pub unlisted: bool,
}

/// The characters of an optional text.
pub open spec fn text_view(text: Option<String>) -> Option<Seq<char>> {
    match text {
        Some(text) => Some(text@),
        None => None,
    }
}

/// An optional text in normal form.
pub open spec fn fixed_text(text: Option<Seq<char>>) -> Option<Seq<char>> {
    match text {
        Some(text) => Some(crlf_fixed(text)),
        None => None,
    }
}

impl UserView {
    /// The user with both texts in normal form, or as it is where it asks
    /// for no normalisation.
    pub open spec fn fixed(self) -> UserView {
        if self.fix_crlf {
            UserView {
                fix_crlf: true,
                info: fixed_text(self.info),
                long_info: fixed_text(self.long_info),
                unlisted: self.unlisted,
            }
        } else {
            self
        }
    }

    /// The short text: `info`, else `long_info`, else nothing.
    pub open spec fn info_text(self) -> Seq<char> {
        match (self.info, self.long_info) {
            (Some(info), _) => info,
            (None, Some(long_info)) => long_info,
            (None, None) => Seq::empty(),
        }
    }

    /// The verbose text: `long_info`, else `info`, else nothing.
    pub open spec fn long_info_text(self) -> Seq<char> {
        match (self.long_info, self.info) {
            (Some(long_info), _) => long_info,
            (None, Some(info)) => info,
            (None, None) => Seq::empty(),
        }
    }

    /// Whether the texts are in normal form where the user asks for it.
    pub open spec fn settled(self) -> bool {
        self.fix_crlf ==> {
            &&& self.info is Some ==> crlf_terminated(self.info->0)
            &&& self.long_info is Some ==> crlf_terminated(self.long_info->0)
        }
    }
}

impl View for User {
    type V = UserView;

    open spec fn view(&self) -> UserView {
        UserView {
            fix_crlf: self.fix_crlf,
            info: text_view(self.info),
            long_info: text_view(self.long_info),
            unlisted: self.unlisted,
        }
    }
}

impl User {
    /// The user that a bare text stands for: the text is its `info`, it is
    /// listed, and its line endings are to be normalised.
    pub fn from_info(info: String) -> (user: Self)
        ensures
            user@ == (UserView {
                fix_crlf: true,
                info: Some(info@),
                long_info: None,
                unlisted: false,
            }),
    {
        User { fix_crlf: true, info: Some(info), long_info: None, unlisted: false }
    }

    /// The text to reply with: `info`, else `long_info`, else the empty text.
    pub fn info(&self) -> (text: &str)
        ensures
            text@ == self@.info_text(),
    {
        match &self.info {
            Some(info) => info.as_str(),
            None => match &self.long_info {
                Some(long_info) => long_info.as_str(),
                None => {
                    proof {
                        reveal_strlit("");
                    }
                    assert(""@ =~= Seq::<char>::empty());
                    ""
                },
            },
        }
    }

    /// The text to reply with in verbose mode: `long_info`, else `info`, else
    /// the empty text.
    pub fn long_info(&self) -> (text: &str)
        ensures
            text@ == self@.long_info_text(),
    {
        match &self.long_info {
            Some(long_info) => long_info.as_str(),
            None => match &self.info {
                Some(info) => info.as_str(),
                None => {
                    proof {
                        reveal_strlit("");
                    }
                    assert(""@ =~= Seq::<char>::empty());
                    ""
                },
            },
        }
    }

    /// Normalises both texts where the user asks for it: every line
    /// terminator becomes CRLF, and a final CRLF is added where it is missing.
    pub fn fix_crlf(&mut self)
        ensures
            final(self)@ == old(self)@.fixed(),
            final(self)@.settled(),
    {
        if self.fix_crlf {
            if let Some(mut info) = self.info.take() {
                proof {
                    lemma_crlf_fixed_terminated(info@);
                }
                fix_string_crlf(&mut info);
                self.info = Some(info);
            }
            if let Some(mut long_info) = self.long_info.take() {
                proof {
                    lemma_crlf_fixed_terminated(long_info@);
                }
                fix_string_crlf(&mut long_info);
                self.long_info = Some(long_info);
            }
        }
    }
}

/// With exactly one text given, both accessors return that text; with none,
/// both return the empty text.
pub proof fn lemma_one_text_serves_both(user: UserView)
    ensures
        user.info is None || user.long_info is None ==> user.info_text() == user.long_info_text(),
        user.info is None && user.long_info is None ==> user.info_text().len() == 0,
{
}

/// Of a normalised user that holds a text, every line of either reply ends
/// with CRLF, the last one included; so neither reply is empty.
pub proof fn lemma_settled_replies_terminated(user: UserView)
    requires
        user.settled(),
        user.fix_crlf,
        user.info is Some || user.long_info is Some,
    ensures
        crlf_terminated(user.info_text()),
        crlf_terminated(user.long_info_text()),
        user.info_text().len() >= 2,
        user.long_info_text().len() >= 2,
{
}

/// Normalising any user gives a normalised user, whatever line endings its
/// texts had.
pub proof fn lemma_fixed_is_settled(user: UserView)
    ensures
        user.fixed().settled(),
{
    if user.info is Some {
        lemma_crlf_fixed_terminated(user.info->0);
    }
    if user.long_info is Some {
        lemma_crlf_fixed_terminated(user.long_info->0);
    }
}

/// A user record of a decoded directory source, each field as the source
/// gives it or absent.
#[derive(Clone, Debug)]
pub struct Record {
    /// Whether line endings are to be normalised; they are, unless the source says otherwise.
    pub fix_crlf: Option<bool>,
    /// The text returned when this user is queried.
    pub info: Option<String>,
    /// The text returned when this user is queried in verbose mode.
    pub long_info: Option<String>,
    /// Whether the user is left out of listings; it is not, unless the source says so.
    pub unlisted: Option<bool>,
}

/// One entry of a decoded directory source: a bare text, which stands for a
/// user with that `info`, or a record.
#[derive(Clone, Debug)]
pub enum Entry {
    /// A bare text.
    Text(String),
    /// A record with its fields as given.
    Record(Record),
}

/// A flag as the source gives it, or its default.
pub open spec fn flag_or(flag: Option<bool>, default: bool) -> bool {
    match flag {
        Some(flag) => flag,
        None => default,
    }
}

/// The user that an entry stands for, before normalisation.
pub open spec fn entry_user(entry: Entry) -> UserView {
    match entry {
        Entry::Text(info) => UserView {
            fix_crlf: true,
            info: Some(info@),
            long_info: None,
            unlisted: false,
        },
        Entry::Record(record) => UserView {
            fix_crlf: flag_or(record.fix_crlf, true),
            info: text_view(record.info),
            long_info: text_view(record.long_info),
            unlisted: flag_or(record.unlisted, false),
        },
    }
}

/// Why a source is no directory.
#[derive(Clone, Copy, Debug, PartialEq, Eq, Structural)]
pub enum DecodeError {
    /// The entry at this position has the name of an earlier entry.
    DuplicateName(usize),
}

/// Whether the name at position `j` also stands at an earlier position.
pub open spec fn repeats_earlier(names: Seq<Seq<char>>, j: int) -> bool {
    exists|i: int| 0 <= i < j && #[trigger] names[i] == names[j]
}

/// The first position whose name repeats an earlier one, if there is any.
pub open spec fn first_repeat(names: Seq<Seq<char>>) -> Option<int> {
    if exists|j: int| 0 <= j < names.len() && repeats_earlier(names, j) {
        Some(
            choose|j: int|
                0 <= j < names.len() && repeats_earlier(names, j) && forall|k: int|
                    0 <= k < j ==> !repeats_earlier(names, k),
        )
    } else {
        None
    }
}

/// The first repeat is the position that repeats a name while none before it does.
pub proof fn lemma_first_repeat(names: Seq<Seq<char>>, j: int)
    requires
        0 <= j < names.len(),
        repeats_earlier(names, j),
        forall|k: int| 0 <= k < j ==> !repeats_earlier(names, k),
    ensures
        first_repeat(names) == Some(j),
{
    let found = first_repeat(names)->0;
    if found < j {
        assert(!repeats_earlier(names, found));
    }
}

/// The names of a source's entries, in their order.
pub open spec fn source_names(entries: Seq<(String, Entry)>) -> Seq<Seq<char>> {
    Seq::new(entries.len(), |i: int| entries[i].0@)
}

/// The users that a source's entries stand for, each normalised.
pub open spec fn source_users(entries: Seq<(String, Entry)>) -> Seq<(Seq<char>, UserView)> {
    Seq::new(entries.len(), |i: int| (entries[i].0@, entry_user(entries[i].1).fixed()))
}

/// The directory that a source decodes to, or why it is none. Listing is
/// enabled unless the source says otherwise.
pub open spec fn decoded(enable_index: Option<bool>, entries: Seq<(String, Entry)>) -> Result<
    UsersView,
    DecodeError,
> {
    match first_repeat(source_names(entries)) {
        Some(j) => Err(DecodeError::DuplicateName(j as usize)),
        None => Ok(
            UsersView {
                enable_index: flag_or(enable_index, true),
                users: source_users(entries),
            },
        ),
    }
}

/// Of a decoded user that asks for normalisation and holds a text, every
/// line of either reply ends with CRLF, the last one included, whatever line
/// endings the source had.
pub proof fn lemma_decoded_replies_terminated(
    enable_index: Option<bool>,
    entries: Seq<(String, Entry)>,
    at: int,
)
    requires
        decoded(enable_index, entries) is Ok,
        0 <= at < entries.len(),
        decoded(enable_index, entries)->Ok_0.users[at].1.fix_crlf,
        entry_user(entries[at].1).info is Some || entry_user(entries[at].1).long_info is Some,
    ensures
        crlf_terminated(decoded(enable_index, entries)->Ok_0.users[at].1.info_text()),
        crlf_terminated(decoded(enable_index, entries)->Ok_0.users[at].1.long_info_text()),
{
    lemma_fixed_is_settled(entry_user(entries[at].1));
    lemma_settled_replies_terminated(entry_user(entries[at].1).fixed());
}

/// The directory: the users by name, and whether they may be listed.
#[derive(Clone, Debug)]
pub struct Users {
    /// Whether the server lets clients list its users.
    pub enable_index: bool,
    /// The users with their names, in the order of the source.
    pub users: Vec<(String, User)>,
}

/// What a directory holds, as plain values.
pub ghost struct UsersView {
    pub enable_index: bool,
    pub users: Seq<(Seq<char>, UserView)>,
}

impl UsersView {
    /// No name stands twice, and every user is normalised.
    pub open spec fn wf(self) -> bool {
        &&& distinct_names(self.users)
        &&& forall|i: int| 0 <= i < self.users.len() ==> (#[trigger] self.users[i]).1.settled()
    }

    /// The first user of that name.
    pub open spec fn lookup(self, name: Seq<char>) -> Option<UserView> {
        find_first(self.users, name)
    }
}

/// Whether no name stands twice among `users`.
pub open spec fn distinct_names(users: Seq<(Seq<char>, UserView)>) -> bool {
    forall|i: int, j: int|
        0 <= i < j < users.len() ==> (#[trigger] users[i]).0 != (#[trigger] users[j]).0
}

/// The first user of that name among `users`.
pub open spec fn find_first(users: Seq<(Seq<char>, UserView)>, name: Seq<char>) -> Option<
    UserView,
>
    decreases users.len(),
{
    if users.len() == 0 {
        None
    } else if users[0].0 == name {
        Some(users[0].1)
    } else {
        find_first(users.drop_first(), name)
    }
}

/// A user that a lookup finds stands in the directory under that name, and no
/// user before it has that name.
pub proof fn lemma_find_first(users: Seq<(Seq<char>, UserView)>, name: Seq<char>)
    ensures
        match find_first(users, name) {
            Some(user) => exists|i: int|
                0 <= i < users.len() && #[trigger] users[i] == (name, user) && forall|k: int|
                    0 <= k < i ==> (#[trigger] users[k]).0 != name,
            None => forall|i: int| 0 <= i < users.len() ==> (#[trigger] users[i]).0 != name,
        },
    decreases users.len(),
{
    if users.len() > 0 {
        let rest = users.drop_first();
        lemma_find_first(rest, name);
        if users[0].0 == name {
            assert(users[0] == (name, users[0].1));
        } else {
            match find_first(rest, name) {
                Some(user) => {
                    let i = choose|i: int|
                        0 <= i < rest.len() && #[trigger] rest[i] == (name, user) && forall|k: int|
                            0 <= k < i ==> (#[trigger] rest[k]).0 != name;
                    assert(users[i + 1] == rest[i]);
                    assert forall|k: int| 0 <= k < i + 1 implies (#[trigger] users[k]).0
                        != name by {
                        if k > 0 {
                            assert(users[k] == rest[k - 1]);
                        }
                    }
                },
                None => {
                    assert forall|i: int| 0 <= i < users.len() implies (#[trigger] users[i]).0
                        != name by {
                        if i > 0 {
                            assert(users[i] == rest[i - 1]);
                        }
                    }
                },
            }
        }
    }
}

impl View for Users {
    type V = UsersView;

    open spec fn view(&self) -> UsersView {
        UsersView {
            enable_index: self.enable_index,
            users: Seq::new(self.users@.len(), |i: int| (self.users@[i].0@, self.users@[i].1@)),
        }
    }
}

/// `str`'s `==`: two string slices are equal exactly when they hold the same
/// characters.
#[verifier::external_body]
fn same_text(a: &str, b: &str) -> (same: bool)
    ensures
        same == (a@ == b@),
{
    a == b
}

/// A flag as the source gives it, or its default.
fn flag_or_default(flag: Option<bool>, default: bool) -> (value: bool)
    ensures
        value == flag_or(flag, default),
{
    match flag {
        Some(flag) => flag,
        None => default,
    }
}

/// A copy of an optional text.
fn copy_text(text: &Option<String>) -> (copy: Option<String>)
    ensures
        text_view(copy) == text_view(*text),
{
    match text {
        Some(text) => Some(text.clone()),
        None => None,
    }
}

impl Entry {
    /// The user that this entry stands for, normalised.
    pub fn to_user(&self) -> (user: User)
        ensures
            user@ == entry_user(*self).fixed(),
            user@.settled(),
    {
        let mut user = match self {
            Entry::Text(info) => User::from_info(info.clone()),
            Entry::Record(record) => User {
                fix_crlf: flag_or_default(record.fix_crlf, true),
                info: copy_text(&record.info),
                long_info: copy_text(&record.long_info),
                unlisted: flag_or_default(record.unlisted, false),
            },
        };
        user.fix_crlf();
        user
    }
}

impl Users {
    /// The first user of that name, if the directory has one.
    pub fn find(&self, name: &str) -> (found: Option<&User>)
        ensures
            match found {
                Some(user) => self@.lookup(name@) == Some(user@),
                None => self@.lookup(name@) is None,
            },
    {
        let ghost all = self@.users;
        let mut i: usize = 0;
        proof {
            assert(all.skip(0) =~= all);
        }
        while i < self.users.len()
            invariant
                0 <= i <= self.users.len(),
                all == self@.users,
                find_first(all, name@) == find_first(all.skip(i as int), name@),
            decreases self.users.len() - i,
        {
            proof {
                assert(all.skip(i as int).drop_first() =~= all.skip(i + 1));
            }
            if same_text(self.users[i].0.as_str(), name) {
                return Some(&self.users[i].1);
            }
            i += 1;
        }
        None
    }

    /// Decodes a source: each entry becomes a normalised user under its name.
    /// A source in which a name stands twice is refused, with the position of
    /// the first entry that repeats a name.
    pub fn decode(enable_index: Option<bool>, entries: &Vec<(String, Entry)>) -> (result: Result<
        Users,
        DecodeError,
    >)
        ensures
            match result {
                Ok(users) => decoded(enable_index, entries@) == Ok::<UsersView, DecodeError>(users@)
                    && users@.wf(),
                Err(error) => decoded(enable_index, entries@) == Err::<UsersView, DecodeError>(
                    error,
                ),
            },
    {
        let ghost names = source_names(entries@);
        let mut users: Vec<(String, User)> = Vec::new();
        let mut j: usize = 0;
        while j < entries.len()
            invariant
                0 <= j <= entries.len(),
                names == source_names(entries@),
                users@.len() == j,
                forall|k: int| 0 <= k < j ==> !repeats_earlier(names, k),
                forall|k: int|
                    0 <= k < j ==> (#[trigger] users@[k]).0@ == entries@[k].0@ && users@[k].1@
                        == entry_user(entries@[k].1).fixed(),
            decreases entries.len() - j,
        {
            let mut i: usize = 0;
            while i < j
                invariant
                    0 <= i <= j < entries.len(),
                    names == source_names(entries@),
                    forall|k: int| 0 <= k < j ==> !repeats_earlier(names, k),
                    forall|k: int| 0 <= k < i ==> #[trigger] names[k] != names[j as int],
                decreases j - i,
            {
                if entries[i].0 == entries[j].0 {
                    proof {
                        assert(names[i as int] == names[j as int]);
                        assert(repeats_earlier(names, j as int));
                        lemma_first_repeat(names, j as int);
                    }
                    return Err(DecodeError::DuplicateName(j));
                }
                i += 1;
            }
            let user = entries[j].1.to_user();
            users.push((entries[j].0.clone(), user));
            j += 1;
        }
        let decoded = Users { enable_index: flag_or_default(enable_index, true), users };
        proof {
            assert(decoded@.users =~= source_users(entries@));
            assert(first_repeat(names) is None);
            assert forall|k: int| 0 <= k < decoded@.users.len() implies (#[trigger] decoded@.users[k]).1.settled() by {
                lemma_fixed_is_settled(entry_user(entries@[k].1));
            }
            assert forall|a: int, b: int| 0 <= a < b < decoded@.users.len() implies (
            #[trigger] decoded@.users[a]).0 != (#[trigger] decoded@.users[b]).0 by {
                if decoded@.users[a].0 == decoded@.users[b].0 {
                    assert(names[a] == names[b]);
                    assert(repeats_earlier(names, b));
                }
            }
        }
        Ok(decoded)
    }
}

/// A text of the directory that most clients will not render correctly.
#[derive(Clone, Copy, Debug, PartialEq, Eq, Structural)]
pub struct Warning {
    /// The position of the user in the directory.
    pub user: usize,
    /// Whether the text is the user's `long_info`, not its `info`.
    pub long: bool,
}

/// Whether a text is given and holds a character outside ASCII.
pub open spec fn non_ascii(text: Option<Seq<char>>) -> bool {
    text is Some && !is_ascii_chars(text->0)
}

/// The warnings that a directory gives rise to: one for each text with a
/// character outside ASCII, in the order of the users, `info` first.
pub open spec fn warnings(users: Seq<(Seq<char>, UserView)>) -> Seq<Warning>
    decreases users.len(),
{
    if users.len() == 0 {
        Seq::empty()
    } else {
        let at = (users.len() - 1) as usize;
        let before = warnings(users.drop_last());
        let short = if non_ascii(users.last().1.info) {
            before.push(Warning { user: at, long: false })
        } else {
            before
        };
        if non_ascii(users.last().1.long_info) {
            short.push(Warning { user: at, long: true })
        } else {
            short
        }
    }
}

/// Whether a text is given and holds a character outside ASCII.
fn text_non_ascii(text: &Option<String>) -> (yes: bool)
    ensures
        yes == non_ascii(text_view(*text)),
{
    match text {
        Some(text) => !text.is_ascii(),
        None => false,
    }
}

/// Looks through the directory for texts that hold characters outside ASCII.
pub fn validate_config(users: &Users) -> (found: Vec<Warning>)
    ensures
        found@ == warnings(users@.users),
{
    let ghost all = users@.users;
    let mut found: Vec<Warning> = Vec::new();
    let mut i: usize = 0;
    while i < users.users.len()
        invariant
            0 <= i <= users.users.len(),
            all == users@.users,
            found@ == warnings(all.take(i as int)),
        decreases users.users.len() - i,
    {
        proof {
            assert(all.take(i + 1).drop_last() =~= all.take(i as int));
        }
        if text_non_ascii(&users.users[i].1.info) {
            found.push(Warning { user: i, long: false });
        }
        if text_non_ascii(&users.users[i].1.long_info) {
            found.push(Warning { user: i, long: true });
        }
        i += 1;
    }
    proof {
        assert(all.take(i as int) =~= all);
    }
    found
}

/// The store of the directory in use. A snapshot handed out stays as it is
/// whatever the store holds later.
pub struct Config {
    current: Arc<Users>,
}

impl View for Config {
    type V = UsersView;

    closed spec fn view(&self) -> UsersView {
        self.current@
    }
}

/// `Arc::clone`: another pointer to the same value.
#[verifier::external_body]
fn share(current: &Arc<Users>) -> (shared: Arc<Users>)
    ensures
        shared == *current,
{
    Arc::clone(current)
}

impl Config {
    /// A store that holds `users`.
    pub fn new(users: Users) -> (config: Self)
        ensures
            config@ == users@,
    {
        Config { current: Arc::new(users) }
    }

    /// A store that holds the directory that a source decodes to.
    pub fn new_parsed(enable_index: Option<bool>, entries: &Vec<(String, Entry)>) -> (result:
        Result<Self, DecodeError>)
        ensures
            match result {
                Ok(config) => decoded(enable_index, entries@) == Ok::<UsersView, DecodeError>(
                    config@,
                ) && config@.wf(),
                Err(error) => decoded(enable_index, entries@) == Err::<UsersView, DecodeError>(
                    error,
                ),
            },
    {
        match Users::decode(enable_index, entries) {
            Ok(users) => Ok(Config::new(users)),
            Err(error) => Err(error),
        }
    }

    /// A snapshot of the directory in use.
    pub fn get(&self) -> (snapshot: Arc<Users>)
        ensures
            snapshot@ == self@,
    {
        share(&self.current)
    }

    /// Puts `users` in use, whole.
    pub fn set(&mut self, users: Users)
        ensures
            final(self)@ == users@,
    {
        self.current = Arc::new(users);
    }

    /// Decodes a source and puts the directory in use. A source that does not
    /// decode leaves the store as it was.
    pub fn load(&mut self, enable_index: Option<bool>, entries: &Vec<(String, Entry)>) -> (result:
        Result<(), DecodeError>)
        ensures
            match result {
                Ok(()) => decoded(enable_index, entries@) == Ok::<UsersView, DecodeError>(
                    final(self)@,
                ) && final(self)@.wf(),
                Err(error) => decoded(enable_index, entries@) == Err::<UsersView, DecodeError>(
                    error,
                ) && final(self)@ == old(self)@,
            },
    {
        match Users::decode(enable_index, entries) {
            Ok(users) => {
                self.set(users);
                Ok(())
            },
            Err(error) => Err(error),
        }
    }
}

} // verus!
