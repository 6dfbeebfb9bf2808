use milim_web::config::Config;
use milim_web::context::{Context, RequestContext};
use milim_web::textmap::TextMap;

#[derive(Debug, PartialEq, Clone)]
struct Counter {
    hits: u32,
}

#[derive(Debug, PartialEq)]
enum State {
    Count(Counter),
    Name(String),
}

const COUNTER: u64 = 1;
const NAME: u64 = 2;

#[test]
fn state_is_read_back_by_type() {
    let mut ctx: Context<State> = Context::new();
    assert_eq!(ctx.get_state(COUNTER), None);
    assert_eq!(ctx.state(COUNTER, State::Count(Counter { hits: 3 })), None);
    assert_eq!(ctx.get_state(COUNTER), Some(&State::Count(Counter { hits: 3 })));
    assert_eq!(ctx.get_state(NAME), None);
}

#[test]
fn second_state_of_a_type_replaces_the_first() {
    let mut ctx: Context<State> = Context::new();
    ctx.state(COUNTER, State::Count(Counter { hits: 3 }));
    ctx.state(NAME, State::Name("n".to_string()));
    let old = ctx.state(COUNTER, State::Count(Counter { hits: 4 }));
    assert_eq!(old, Some(State::Count(Counter { hits: 3 })));
    assert_eq!(ctx.get_state(COUNTER), Some(&State::Count(Counter { hits: 4 })));
    assert_eq!(ctx.get_state(NAME), Some(&State::Name("n".to_string())));
}

#[test]
fn request_context_stores_and_replaces() {
    let mut ctx: RequestContext<Counter> = RequestContext::new();
    assert_eq!(ctx.get(COUNTER), None);
    assert_eq!(ctx.data(COUNTER, Counter { hits: 1 }), None);
    assert_eq!(ctx.data(NAME, Counter { hits: 9 }), None);
    assert_eq!(ctx.data(COUNTER, Counter { hits: 2 }), Some(Counter { hits: 1 }));
    assert_eq!(ctx.get(COUNTER), Some(&Counter { hits: 2 }));
    assert_eq!(ctx.get(NAME), Some(&Counter { hits: 9 }));
    assert_eq!(ctx.get(7), None);
}

#[test]
fn request_context_changes_in_place() {
    let mut ctx: RequestContext<Counter> = RequestContext::new();
    ctx.data(COUNTER, Counter { hits: 1 });
    ctx.data(NAME, Counter { hits: 5 });
    if let Some(c) = ctx.get_mut(COUNTER) {
        c.hits += 10;
    }
    assert_eq!(ctx.get(COUNTER), Some(&Counter { hits: 11 }));
    assert_eq!(ctx.get(NAME), Some(&Counter { hits: 5 }));
    assert!(ctx.get_mut(7).is_none());
}

#[test]
fn contexts_do_not_share() {
    let mut a: RequestContext<u8> = RequestContext::new();
    let b: RequestContext<u8> = RequestContext::new();
    a.data(COUNTER, 1);
    assert_eq!(a.get(COUNTER), Some(&1));
    assert_eq!(b.get(COUNTER), None);
}

#[test]
fn config_defaults() {
    let c = Config::new();
    assert_eq!(c.max_headers, 32);
    assert_eq!(c.max_header_len_kb, 8);
    assert_eq!(c.max_body_kb, 1024);
    assert_eq!(c.read_timeout_s, 5);
    assert_eq!(c.keep_alive_s, 5);
    let z = Config::default();
    assert_eq!(z.max_body_kb, 0);
}

#[test]
fn config_kilobytes() {
    assert_eq!(Config::get_kb_value(0), 0);
    assert_eq!(Config::get_kb_value(1), 1024);
    assert_eq!(Config::get_kb_value(1024), 1048576);
    assert_eq!(Config::kb_value(8), Some(8192));
    assert_eq!(Config::kb_value(usize::MAX / 1024), Some(usize::MAX / 1024 * 1024));
    assert_eq!(Config::kb_value(usize::MAX / 1024 + 1), None);
    assert_eq!(Config::kb_value(usize::MAX), None);
}

#[test]
fn text_map_binds_finds_and_unbinds() {
    let mut m = TextMap::new();
    assert!(m.is_empty());
    assert_eq!(m.insert("a".to_string(), "1".to_string()), None);
    assert_eq!(m.insert("b".to_string(), "2".to_string()), None);
    assert_eq!(m.insert("a".to_string(), "3".to_string()), Some("1".to_string()));
    assert_eq!(m.len(), 2);
    assert_eq!(m.find("a"), 0);
    assert_eq!(m.find("b"), 1);
    assert_eq!(m.find("c"), 2);
    assert!(m.contains_key("a"));
    assert!(!m.contains_key("A"));
    assert_eq!(m.get("a"), Some(&"3".to_string()));
    assert_eq!(m.get("c"), None);
    assert_eq!(m.remove("a"), Some("3".to_string()));
    assert_eq!(m.remove("a"), None);
    assert_eq!(m.len(), 1);
    assert_eq!(m.key_at(0), "b");
    assert_eq!(m.value_at(0), "2");
}

#[test]
fn text_maps_are_equal_whatever_the_order() {
    let mut m = TextMap::new();
    m.insert("a".to_string(), "1".to_string());
    m.insert("b".to_string(), "2".to_string());
    let mut n = TextMap::new();
    n.insert("b".to_string(), "2".to_string());
    n.insert("a".to_string(), "1".to_string());
    assert_eq!(m, n);
    assert!(m.within(&n));
    n.insert("c".to_string(), "3".to_string());
    assert_ne!(m, n);
    assert!(m.within(&n));
    assert!(!n.within(&m));
    m.insert("c".to_string(), "4".to_string());
    assert_ne!(m, n);
    assert_eq!(m.clone(), m);
}
