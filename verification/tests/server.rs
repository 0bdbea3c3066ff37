use carpool::cache::Cache;
use carpool::clock::NANOS_PER_SEC;
use carpool::config::Config;
use carpool::server::handle;
use carpool::server::handle_at;
use carpool::server::parse;
use carpool::server::Reply;
use carpool::server::Request;

fn cache_with_ttl(ttl: u64) -> Cache {
    Cache::new(Config::new(ttl))
}

fn assert_silent(reply: &Reply) {
    assert_eq!(reply.response, "");
    assert!(reply.console.is_empty());
}

fn assert_answer(reply: &Reply, text: &str) {
    assert_eq!(reply.response, text);
    assert!(reply.console.is_empty());
}

fn assert_note(reply: &Reply, line: &str) {
    assert_eq!(reply.response, "");
    assert_eq!(reply.console, vec![String::from(line)]);
}

fn is_put(request: &Request, key: &str, value: &str) -> bool {
    match request {
        Request::Put(k, v) => k == key && v == value,
        _ => false,
    }
}

#[test]
fn blank_lines_ask_for_nothing() {
    for line in ["", " ", "\n", "  \t \r\n", "\u{3000}\u{85}"] {
        assert!(matches!(parse(line), Request::Blank));
    }
    let mut cache = cache_with_ttl(1);
    assert_silent(&handle_at(&mut cache, "   \n", 0));
    assert_eq!(cache.count(), 0);
}

#[test]
fn get_with_nothing_behind_it_names_the_empty_key() {
    for line in ["get ", "get   ", "get \n"] {
        match parse(line) {
            Request::Get(key) => assert_eq!(key, ""),
            _ => panic!("not a get"),
        }
    }
    let mut cache = cache_with_ttl(1);
    handle_at(&mut cache, "set  x", 0);
    assert_eq!(cache.keys(), vec![String::new()]);
    assert_answer(&handle_at(&mut cache, "get ", 0), "x");
}

#[test]
fn parse_get_trims_the_key() {
    match parse("get   name \n") {
        Request::Get(key) => assert_eq!(key, "name"),
        _ => panic!("not a get"),
    }
    match parse("get \tname\t") {
        Request::Get(key) => assert_eq!(key, "name"),
        _ => panic!("not a get"),
    }
    match parse("get \u{e9}t\u{e9}\n") {
        Request::Get(key) => assert_eq!(key, "\u{e9}t\u{e9}"),
        _ => panic!("not a get"),
    }
}

#[test]
fn parse_del_trims_the_key() {
    match parse("del name\n") {
        Request::Del(key) => assert_eq!(key, "name"),
        _ => panic!("not a del"),
    }
}

#[test]
fn parse_rejects_a_key_with_a_space() {
    assert!(matches!(parse("get a b"), Request::BadKey));
    assert!(matches!(parse("del a b\n"), Request::BadKey));
    assert!(matches!(parse("get  a  b  "), Request::BadKey));
}

#[test]
fn a_tab_inside_a_key_is_no_space() {
    match parse("get a\tb") {
        Request::Get(key) => assert_eq!(key, "a\tb"),
        _ => panic!("not a get"),
    }
}

#[test]
fn parse_set_splits_at_the_first_space() {
    assert!(is_put(&parse("set a b"), "a", "b"));
    assert!(is_put(&parse("set key some longer value\n"), "key", "some longer value"));
    assert!(is_put(&parse("set a   b  c  "), "a", "b  c"));
    assert!(is_put(&parse("set a \n"), "a", ""));
    assert!(is_put(&parse("set \u{e9} \u{2764}\u{fe0f}"), "\u{e9}", "\u{2764}\u{fe0f}"));
}

#[test]
fn a_set_whose_rest_opens_with_a_space_has_an_empty_key() {
    assert!(is_put(&parse("set  a b"), "", "a b"));
}

#[test]
fn parse_set_without_value() {
    assert!(matches!(parse("set a"), Request::NoValue));
    assert!(matches!(parse("set a\n"), Request::NoValue));
    assert!(matches!(parse("set a\tb"), Request::NoValue));
}

#[test]
fn parse_plain_commands() {
    assert!(matches!(parse("prune"), Request::Prune));
    assert!(matches!(parse("reset"), Request::Reset));
    assert!(matches!(parse("count"), Request::Count));
    assert!(matches!(parse("size"), Request::Size));
    assert!(matches!(parse("keys"), Request::Keys));
}

#[test]
fn parse_plain_commands_with_their_newline() {
    assert!(matches!(parse("prune\n"), Request::Prune));
    assert!(matches!(parse("reset\n"), Request::Reset));
    assert!(matches!(parse("count\n"), Request::Count));
    assert!(matches!(parse("size\n"), Request::Size));
    assert!(matches!(parse("keys\n"), Request::Keys));
}

#[test]
fn parse_unknown_commands() {
    let lines = [
        "prune\n\n", "prune \n", "prune\r\n", " prune", "Prune", "COUNT", "keys ", "get", "set",
        "del", "get\n", "getx a", "hello", "sizes", "count\nx",
    ];
    for line in lines {
        assert!(matches!(parse(line), Request::Unknown), "{:?}", line);
    }
}

#[test]
fn handle_set_then_get() {
    let mut cache = cache_with_ttl(10);
    assert_silent(&handle_at(&mut cache, "set greeting hello world\n", 0));
    assert_eq!(cache.count(), 1);
    assert_answer(&handle_at(&mut cache, "get greeting\n", NANOS_PER_SEC), "hello world");
    assert_eq!(cache.get_at(&String::from("greeting"), 0), Some(&String::from("hello world")));
}

#[test]
fn handle_get_of_absent_or_stale_key_answers_nothing() {
    let mut cache = cache_with_ttl(1);
    assert_answer(&handle_at(&mut cache, "get a", 0), "");
    handle_at(&mut cache, "set a 1", 0);
    assert_answer(&handle_at(&mut cache, "get a", NANOS_PER_SEC), "1");
    assert_answer(&handle_at(&mut cache, "get a", 2 * NANOS_PER_SEC), "");
    assert_eq!(cache.count(), 1);
}

#[test]
fn handle_del() {
    let mut cache = cache_with_ttl(10);
    handle_at(&mut cache, "set a 1", 0);
    handle_at(&mut cache, "set b 2", 0);
    assert_silent(&handle_at(&mut cache, "del a\n", 0));
    assert_eq!(cache.keys(), vec![String::from("b")]);
    assert_silent(&handle_at(&mut cache, "del missing", 0));
    assert_eq!(cache.count(), 1);
}

#[test]
fn handle_rejects_a_key_with_a_space() {
    let mut cache = cache_with_ttl(10);
    handle_at(&mut cache, "set a 1", 0);
    assert_note(&handle_at(&mut cache, "get a b", 0), "key cannot contain space");
    assert_note(&handle_at(&mut cache, "del a b", 0), "key cannot contain space");
    assert_eq!(cache.count(), 1);
    assert_eq!(cache.size(), 2);
}

#[test]
fn handle_set_without_value() {
    let mut cache = cache_with_ttl(10);
    assert_note(&handle_at(&mut cache, "set a", 0), "no value specified");
    assert_eq!(cache.count(), 0);
}

#[test]
fn handle_unknown_command() {
    let mut cache = cache_with_ttl(10);
    handle_at(&mut cache, "set a 1", 0);
    assert_note(&handle_at(&mut cache, "flush", 0), "operation not defined");
    assert_note(&handle_at(&mut cache, "count \n", 0), "operation not defined");
    assert_eq!(cache.count(), 1);
}

#[test]
fn handle_count_and_size() {
    let mut cache = cache_with_ttl(10);
    assert_answer(&handle_at(&mut cache, "count", 0), "0");
    assert_answer(&handle_at(&mut cache, "size", 0), "0 bytes");
    handle_at(&mut cache, "set alpha 12345", 0);
    handle_at(&mut cache, "set beta 1234567", 0);
    assert_answer(&handle_at(&mut cache, "count", 0), "2");
    assert_answer(&handle_at(&mut cache, "size", 0), "21 bytes");
    for n in 0..9 {
        handle_at(&mut cache, &format!("set k{} v", n), 0);
    }
    assert_answer(&handle_at(&mut cache, "count", 0), "11");
    assert_answer(&handle_at(&mut cache, "size", 0), "48 bytes");
}

#[test]
fn handle_serves_lines_as_they_arrive() {
    let mut cache = cache_with_ttl(1);
    assert_silent(&handle_at(&mut cache, "\n", 0));
    assert_silent(&handle_at(&mut cache, "set a 1\n", 0));
    assert_answer(&handle_at(&mut cache, "count\n", 0), "1");
    assert_answer(&handle_at(&mut cache, "size\n", 0), "2 bytes");
    assert_answer(&handle_at(&mut cache, "get a\n", NANOS_PER_SEC), "1");
    assert_answer(&handle_at(&mut cache, "get a\n", NANOS_PER_SEC + NANOS_PER_SEC / 2), "");
    let reply = handle_at(&mut cache, "keys\n", 0);
    assert_eq!(reply.response, "");
    assert_eq!(reply.console, vec![String::from("a")]);
    assert_silent(&handle_at(&mut cache, "prune\n", 2 * NANOS_PER_SEC));
    assert_answer(&handle_at(&mut cache, "count\n", 2 * NANOS_PER_SEC), "0");
    assert_silent(&handle_at(&mut cache, "set b 2\n", 2 * NANOS_PER_SEC));
    assert_silent(&handle_at(&mut cache, "reset\n", 2 * NANOS_PER_SEC));
    assert_answer(&handle_at(&mut cache, "count\n", 2 * NANOS_PER_SEC), "0");
}

#[test]
fn handle_keys_lists_each_key_on_the_console() {
    let mut cache = cache_with_ttl(10);
    assert_silent(&handle_at(&mut cache, "keys", 0));
    handle_at(&mut cache, "set a 1", 0);
    handle_at(&mut cache, "set b 2", 0);
    handle_at(&mut cache, "set a 3", 0);
    let reply = handle_at(&mut cache, "keys", 0);
    assert_eq!(reply.response, "");
    let mut lines = reply.console;
    lines.sort();
    assert_eq!(lines, vec![String::from("a"), String::from("b")]);
}

#[test]
fn handle_prune_and_reset() {
    let mut cache = cache_with_ttl(1);
    handle_at(&mut cache, "set a 1", 0);
    handle_at(&mut cache, "set b 2", 3 * NANOS_PER_SEC);
    assert_silent(&handle_at(&mut cache, "prune", 3 * NANOS_PER_SEC));
    assert_eq!(cache.keys(), vec![String::from("b")]);
    assert_silent(&handle_at(&mut cache, "reset", 3 * NANOS_PER_SEC));
    assert_eq!(cache.count(), 0);
    assert_eq!(cache.size(), 0);
}

#[test]
fn handle_on_the_clock() {
    let mut cache = cache_with_ttl(60);
    assert_silent(&handle(&mut cache, "set a 1"));
    assert_answer(&handle(&mut cache, "get a"), "1");
    assert_answer(&handle(&mut cache, "count"), "1");
    assert_silent(&handle(&mut cache, "prune"));
    assert_answer(&handle(&mut cache, "size"), "2 bytes");
    assert_note(&handle(&mut cache, "nonsense"), "operation not defined");
}
