//! The command protocol: one command per line, taken apart here and carried
//! out on a cache. What a command gives back to its sender and what it has
//! to say on the console are handed to the caller, who does the writing.

use crate::cache::Cache;
use crate::model::CacheModel;
use crate::text::chars_of;
use crate::text::decimal;
use crate::text::find;
use crate::text::starts_with;
use crate::text::to_decimal;
use crate::text::trim;
use crate::text::trim_bounds;
use vstd::prelude::*;
use vstd::string::StrSliceExecFns;
use vstd::string::StringExecFns;

verus! {

/// What a line asks for.
pub enum Request {
    /// Nothing: the line holds white space only.
    Blank,
    /// The value stored under a key.
    Get(String),
    /// The deletion of a key.
    Del(String),
    /// A write of a value under a key.
    Put(String, String),
    /// A prune of stale entries.
    Prune,
    /// An empty cache.
    Reset,
    /// The number of entries.
    Count,
    /// The bytes charged.
    Size,
    /// The keys of all entries.
    Keys,
    /// A read or a deletion whose key holds a space.
    BadKey,
    /// A write without a value.
    NoValue,
    /// None of the above.
    Unknown,
}

/// A request with its texts as sequences of characters.
pub enum RequestModel {
    Blank,
    Get(Seq<char>),
    Del(Seq<char>),
    Put(Seq<char>, Seq<char>),
    Prune,
    Reset,
    Count,
    Size,
    Keys,
    BadKey,
    NoValue,
    Unknown,
}

impl View for Request {
    type V = RequestModel;

    open spec fn view(&self) -> RequestModel {
        match self {
            Request::Blank => RequestModel::Blank,
            Request::Get(key) => RequestModel::Get(key@),
            Request::Del(key) => RequestModel::Del(key@),
            Request::Put(key, value) => RequestModel::Put(key@, value@),
            Request::Prune => RequestModel::Prune,
            Request::Reset => RequestModel::Reset,
            Request::Count => RequestModel::Count,
            Request::Size => RequestModel::Size,
            Request::Keys => RequestModel::Keys,
            Request::BadKey => RequestModel::BadKey,
            Request::NoValue => RequestModel::NoValue,
            Request::Unknown => RequestModel::Unknown,
        }
    }
}

/// The key that a read or a deletion names in what follows the command
/// word: the trimmed text, which may hold no space.
pub open spec fn key_in(rest: Seq<char>) -> Option<Seq<char>> {
    if trim(rest).contains(' ') {
        None
    } else {
        Some(trim(rest))
    }
}

/// The line without the newline that ends it, if one does.
pub open spec fn unterminated(line: Seq<char>) -> Seq<char> {
    if line.len() > 0 && line.last() == '\n' {
        line.drop_last()
    } else {
        line
    }
}

/// What a line asks for. A line of white space asks for nothing. `get `,
/// `del ` and `set ` open a line and take what follows; a write splits that
/// at its first space into key and value and trims both. Each of the other
/// commands is the whole line but for the newline that may end it.
pub open spec fn parse_line(line: Seq<char>) -> RequestModel {
    if trim(line).len() == 0 {
        RequestModel::Blank
    } else if "get "@.is_prefix_of(line) {
        match key_in(line.skip(4)) {
            Some(key) => RequestModel::Get(key),
            None => RequestModel::BadKey,
        }
    } else if "del "@.is_prefix_of(line) {
        match key_in(line.skip(4)) {
            Some(key) => RequestModel::Del(key),
            None => RequestModel::BadKey,
        }
    } else if "set "@.is_prefix_of(line) {
        match line.skip(4).index_of_first(' ') {
            Some(at) => RequestModel::Put(
                trim(line.skip(4).take(at)),
                trim(line.skip(4).skip(at)),
            ),
            None => RequestModel::NoValue,
        }
    } else if unterminated(line) == "prune"@ {
        RequestModel::Prune
    } else if unterminated(line) == "reset"@ {
        RequestModel::Reset
    } else if unterminated(line) == "count"@ {
        RequestModel::Count
    } else if unterminated(line) == "size"@ {
        RequestModel::Size
    } else if unterminated(line) == "keys"@ {
        RequestModel::Keys
    } else {
        RequestModel::Unknown
    }
}

/// Whether the first `len` of `chars` read `word` and nothing else.
fn reads(chars: &Vec<char>, len: usize, word: &str) -> (same: bool)
    requires
        len <= chars@.len(),
    ensures
        same == (chars@.take(len as int) == word@),
{
    let letters = chars_of(word);
    if len != letters.len() {
        return false;
    }
    let prefixed = starts_with(chars, &letters);
    assert(chars@.subrange(0, letters@.len() as int) =~= chars@.take(len as int));
    prefixed
}

/// The key of a read or a deletion, taken from `chars[4..]`.
fn read_key(command: &str, chars: &Vec<char>) -> (key: Option<String>)
    requires
        chars@ == command@,
        chars@.len() >= 4,
    ensures
        match key {
            Some(text) => key_in(command@.skip(4)) == Some(text@),
            None => key_in(command@.skip(4)).is_none(),
        },
{
    let (from, to) = trim_bounds(chars, 4, chars.len());
    assert(chars@.subrange(4, chars@.len() as int) =~= command@.skip(4));
    proof {
        trim(command@.skip(4)).index_of_first_ensures(' ');
    }
    match find(chars, from, to, ' ') {
        Some(_) => None,
        None => Some(command.substring_char(from, to).to_owned()),
    }
}

/// Takes a line apart.
pub fn parse(command: &str) -> (request: Request)
    ensures
        request@ == parse_line(command@),
{
    let chars = chars_of(command);
    let len = chars.len();
    proof {
        reveal_strlit("get ");
        reveal_strlit("del ");
        reveal_strlit("set ");
    }
    let (from, to) = trim_bounds(&chars, 0, len);
    assert(chars@.subrange(0, len as int) =~= command@);
    if from == to {
        Request::Blank
    } else if starts_with(&chars, &chars_of("get ")) {
        match read_key(command, &chars) {
            Some(key) => Request::Get(key),
            None => Request::BadKey,
        }
    } else if starts_with(&chars, &chars_of("del ")) {
        match read_key(command, &chars) {
            Some(key) => Request::Del(key),
            None => Request::BadKey,
        }
    } else if starts_with(&chars, &chars_of("set ")) {
        let ghost rest = command@.skip(4);
        assert(chars@.subrange(4, len as int) =~= rest);
        match find(&chars, 4, len, ' ') {
            Some(at) => {
                let (key_from, key_to) = trim_bounds(&chars, 4, 4 + at);
                let (value_from, value_to) = trim_bounds(&chars, 4 + at, len);
                proof {
                    rest.index_of_first_ensures(' ');
                    assert(chars@.subrange(4, 4 + at) =~= rest.take(at as int));
                    assert(chars@.subrange(4 + at, len as int) =~= rest.skip(at as int));
                }
                Request::Put(
                    command.substring_char(key_from, key_to).to_owned(),
                    command.substring_char(value_from, value_to).to_owned(),
                )
            },
            None => Request::NoValue,
        }
    } else {
        let end = if len > 0 && chars[len - 1] == '\n' {
            len - 1
        } else {
            len
        };
        assert(chars@.take(end as int) =~= unterminated(command@));
        if reads(&chars, end, "prune") {
            Request::Prune
        } else if reads(&chars, end, "reset") {
            Request::Reset
        } else if reads(&chars, end, "count") {
            Request::Count
        } else if reads(&chars, end, "size") {
            Request::Size
        } else if reads(&chars, end, "keys") {
            Request::Keys
        } else {
            Request::Unknown
        }
    }
}

/// What a command leaves for its caller to write.
pub struct Reply {
    /// The text that goes back to the sender.
    pub response: String,
    /// The lines that go to the console.
    pub console: Vec<String>,
}

/// A reply with its texts as sequences of characters.
pub struct ReplyModel {
    pub response: Seq<char>,
    pub console: Seq<Seq<char>>,
}

impl View for Reply {
    type V = ReplyModel;

    open spec fn view(&self) -> ReplyModel {
        ReplyModel { response: self.response@, console: self.console.deep_view() }
    }
}

impl ReplyModel {
    /// The reply that says nothing.
    pub open spec fn silent() -> ReplyModel {
        ReplyModel { response: Seq::empty(), console: Seq::empty() }
    }

    /// The reply that sends `text` back.
    pub open spec fn answer(text: Seq<char>) -> ReplyModel {
        ReplyModel { response: text, console: Seq::empty() }
    }

    /// The reply that sends nothing back and puts `line` on the console.
    pub open spec fn note(line: Seq<char>) -> ReplyModel {
        ReplyModel { response: Seq::empty(), console: seq![line] }
    }
}

/// Whether `request` can be carried out on `cache`: a write has to keep the
/// byte count within what a `usize` holds.
pub open spec fn fits(cache: CacheModel, request: RequestModel) -> bool {
    match request {
        RequestModel::Put(key, value) => cache.size_with(key, value) <= usize::MAX,
        _ => true,
    }
}

/// Whether carrying out `request` at `now` on the cache `before` leaves the
/// cache `after` and gives `reply`. Every request but the listing of the
/// keys has one outcome; the keys come each once, in any order.
pub open spec fn carried_out(
    before: CacheModel,
    request: RequestModel,
    now: u128,
    after: CacheModel,
    reply: ReplyModel,
) -> bool {
    match request {
        RequestModel::Blank => after == before && reply == ReplyModel::silent(),
        RequestModel::Get(key) => after == before && reply == ReplyModel::answer(
            match before.lookup(key, now) {
                Some(value) => value,
                None => Seq::empty(),
            },
        ),
        RequestModel::Del(key) => after == before.without(key) && reply == ReplyModel::silent(),
        RequestModel::Put(key, value) => after == before.with_set(key, value, now) && reply
            == ReplyModel::silent(),
        RequestModel::Prune => after == before.pruned(now) && reply == ReplyModel::silent(),
        RequestModel::Reset => after == before.emptied() && reply == ReplyModel::silent(),
        RequestModel::Count => after == before && reply == ReplyModel::answer(
            decimal(before.count()),
        ),
        RequestModel::Size => after == before && reply == ReplyModel::answer(
            decimal(before.size()) + " bytes"@,
        ),
        RequestModel::Keys => {
            &&& after == before
            &&& reply.response == Seq::<char>::empty()
            &&& reply.console.no_duplicates()
            &&& reply.console.to_set() == before.entries.dom()
        },
        RequestModel::BadKey => after == before && reply == ReplyModel::note(
            "key cannot contain space"@,
        ),
        RequestModel::NoValue => after == before && reply == ReplyModel::note(
            "no value specified"@,
        ),
        RequestModel::Unknown => after == before && reply == ReplyModel::note(
            "operation not defined"@,
        ),
    }
}

/// The reply that says nothing.
fn silent() -> (reply: Reply)
    ensures
        reply@ == ReplyModel::silent(),
{
    let reply = Reply { response: String::new(), console: Vec::new() };
    assert(reply.console.deep_view() =~= Seq::<Seq<char>>::empty());
    reply
}

/// The reply that sends `text` back.
fn answer(text: String) -> (reply: Reply)
    ensures
        reply@ == ReplyModel::answer(text@),
{
    let reply = Reply { response: text, console: Vec::new() };
    assert(reply.console.deep_view() =~= Seq::<Seq<char>>::empty());
    reply
}

/// The reply that sends nothing back and puts `line` on the console.
fn note(line: &str) -> (reply: Reply)
    ensures
        reply@ == ReplyModel::note(line@),
{
    let mut console: Vec<String> = Vec::new();
    console.push(line.to_owned());
    let reply = Reply { response: String::new(), console };
    assert(reply.console.deep_view() =~= seq![line@]);
    reply
}

/// Process a request against the cache, at the time `now`.
pub fn handle_at(cache: &mut Cache, command: &str, now: u128) -> (reply: Reply)
    requires
        old(cache).wf(),
        fits(old(cache)@, parse_line(command@)),
    ensures
        final(cache).wf(),
        carried_out(old(cache)@, parse_line(command@), now, final(cache)@, reply@),
{
    match parse(command) {
        Request::Blank => silent(),
        Request::Get(key) => {
            match cache.get_at(&key, now) {
                Some(value) => answer(value.clone()),
                None => answer(String::new()),
            }
        },
        Request::Del(key) => {
            cache.delete(&key);
            silent()
        },
        Request::Put(key, value) => {
            cache.set_at(key, value, now);
            silent()
        },
        Request::Prune => {
            cache.prune_at(now);
            silent()
        },
        Request::Reset => {
            cache.empty();
            silent()
        },
        Request::Count => answer(to_decimal(cache.count())),
        Request::Size => {
            let mut text = to_decimal(cache.size());
            text.append(" bytes");
            answer(text)
        },
        Request::Keys => Reply { response: String::new(), console: cache.keys() },
        Request::BadKey => note("key cannot contain space"),
        Request::NoValue => note("no value specified"),
        Request::Unknown => note("operation not defined"),
    }
}

/// Process a request against the cache, at the reading of the cache's clock
/// at the call.
pub fn handle(cache: &mut Cache, command: &str) -> (reply: Reply)
    requires
        old(cache).wf(),
        fits(old(cache)@, parse_line(command@)),
    ensures
        final(cache).wf(),
        exists|now: u128| #[trigger]
            carried_out(old(cache)@, parse_line(command@), now, final(cache)@, reply@),
{
    let now = cache.now();
    handle_at(cache, command, now)
}

} // verus!
