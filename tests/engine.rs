use wordfuzz::dispatch::{next_request, DispatchPolicy, HttpMethod, InvalidMethod};
use wordfuzz::plan::{get_body, get_headers, split_header, SubstitutionPlan};
use wordfuzz::queue::WorkQueue;
use wordfuzz::template::{chars_of, compile, find_occurrences, MalformedTemplate};

fn words(ws: &[&str]) -> Vec<String> {
    ws.iter().map(|w| w.to_string()).collect()
}

#[test]
fn odd_delimiter_count_is_malformed() {
    assert_eq!(compile("a##b", "##").err(), Some(MalformedTemplate));
    assert_eq!(compile("##a##b##", "##").err(), Some(MalformedTemplate));
    assert_eq!(compile("###", "##").err(), Some(MalformedTemplate));
}

#[test]
fn even_delimiter_count_gives_half_as_many_spans() {
    assert_eq!(compile("plain", "##").unwrap().spans(), 0);
    assert_eq!(compile("##a##", "##").unwrap().spans(), 1);
    assert_eq!(compile("x##a##y##b##z", "##").unwrap().spans(), 2);
    assert_eq!(compile("####", "##").unwrap().spans(), 1);
}

#[test]
fn occurrences_do_not_overlap() {
    let text = chars_of("aaaa");
    let delim = chars_of("aa");
    assert_eq!(find_occurrences(&text, &delim), vec![0, 2]);
    let text = chars_of("aaa");
    assert_eq!(find_occurrences(&text, &delim), vec![0]);
    let text = chars_of("x::y::");
    assert_eq!(find_occurrences(&text, &chars_of("::")), vec![1, 4]);
}

#[test]
fn no_delimiter_keeps_text() {
    let t = compile("GET /index.html", "##").unwrap();
    assert_eq!(t.materialize("anything"), "GET /index.html");
    assert_eq!(t.materialize(""), "GET /index.html");
    let t = compile("", "##").unwrap();
    assert_eq!(t.materialize("w"), "");
}

#[test]
fn round_trip_replaces_span_with_word() {
    let t = compile("id=##X##", "##").unwrap();
    assert_eq!(t.materialize("42"), "id=42");
    let t = compile("a§X§b", "§").unwrap();
    assert_eq!(t.materialize("wörd"), "awördb");
}

#[test]
fn each_span_gets_the_word_once() {
    let t = compile("{\"u\":\"##john##\",\"p\":\"##123##\"}", "##").unwrap();
    assert_eq!(t.materialize("admin"), "{\"u\":\"admin\",\"p\":\"admin\"}");
    let t = compile("####tail", "##").unwrap();
    assert_eq!(t.materialize("w"), "wtail");
    assert_eq!(t.raw(), "####tail");
}

#[test]
fn compiling_twice_gives_the_same_output() {
    let a = compile("k=##v##&q=##z##", "##").unwrap();
    let b = compile("k=##v##&q=##z##", "##").unwrap();
    for w in ["", "x", "long word", "ü"] {
        assert_eq!(a.materialize(w), b.materialize(w));
    }
}

#[test]
fn header_split_needs_exactly_one_separator() {
    assert_eq!(
        split_header("Accept: application/json"),
        Some(("Accept".to_string(), "application/json".to_string()))
    );
    assert_eq!(split_header("Key: "), Some(("Key".to_string(), String::new())));
    assert_eq!(split_header("NoColonHere"), None);
    assert_eq!(split_header("a: b: c"), None);
    assert_eq!(split_header("Host:example.com"), None);
}

#[test]
fn header_without_separator_is_skipped() {
    let hs = words(&["NoColonHere", "X-Id: ##1##"]);
    let compiled = get_headers(&hs, "##").unwrap();
    assert_eq!(compiled.len(), 1);
    assert_eq!(compiled[0].0.materialize("7"), "X-Id");
    assert_eq!(compiled[0].1.materialize("7"), "7");
    let plan = SubstitutionPlan::new(&hs, &None, "##").unwrap();
    assert_eq!(plan.header_count(), 1);
    let req = plan.materialize("bob");
    assert_eq!(req.headers, vec![("X-Id".to_string(), "bob".to_string())]);
}

#[test]
fn malformed_header_key_or_value_fails() {
    let hs = words(&["X-##a: v"]);
    assert_eq!(get_headers(&hs, "##").err(), Some(MalformedTemplate));
    let hs = words(&["Ok: fine", "K: ##v"]);
    assert_eq!(get_headers(&hs, "##").err(), Some(MalformedTemplate));
    let hs = words(&["Skipped ## header"]);
    assert_eq!(get_headers(&hs, "##").unwrap().len(), 0);
}

#[test]
fn body_is_optional() {
    assert!(get_body(&None, "##").unwrap().is_none());
    let b = get_body(&Some("user=##word##".to_string()), "##").unwrap().unwrap();
    assert_eq!(b.materialize("carol"), "user=carol");
    assert_eq!(get_body(&Some("a##b".to_string()), "##").err(), Some(MalformedTemplate));
}

#[test]
fn malformed_body_sends_nothing() {
    let plan = SubstitutionPlan::new(&Vec::new(), &Some("a##b".to_string()), "##");
    assert_eq!(plan.err(), Some(MalformedTemplate));
}

#[test]
fn queue_hands_out_each_word_once() {
    let list = words(&["a", "b", "c", "a", "d"]);
    let mut q = WorkQueue::new(list.clone());
    assert_eq!(q.len(), 5);
    let mut seen: Vec<Vec<String>> = vec![Vec::new(), Vec::new(), Vec::new()];
    let mut worker = 0;
    let mut done = [false; 3];
    while !done.iter().all(|d| *d) {
        if !done[worker] {
            match q.try_take() {
                Some(w) => seen[worker].push(w),
                None => done[worker] = true,
            }
        }
        worker = (worker + 2) % 3;
    }
    assert!(q.is_empty());
    assert_eq!(q.try_take(), None);
    let mut all: Vec<String> = seen.concat();
    all.sort();
    let mut expected = list;
    expected.sort();
    assert_eq!(all, expected);
}

#[test]
fn queue_takes_from_the_end() {
    let mut q = WorkQueue::new(words(&["first", "last"]));
    assert_eq!(q.try_take(), Some("last".to_string()));
    assert_eq!(q.try_take(), Some("first".to_string()));
    assert_eq!(q.try_take(), None);
    let mut empty = WorkQueue::new(Vec::new());
    assert!(empty.is_empty());
    assert_eq!(empty.try_take(), None);
}

#[test]
fn two_workers_send_one_request_per_word() {
    let plan = SubstitutionPlan::new(&Vec::new(), &Some("user=##word##".to_string()), "##")
        .unwrap();
    assert!(plan.has_body());
    let mut q = WorkQueue::new(words(&["alice", "bob"]));
    let mut sent: Vec<(usize, String, String)> = Vec::new();
    let mut stopped = [false, false];
    let mut worker = 0;
    while !(stopped[0] && stopped[1]) {
        if !stopped[worker] {
            match next_request(&plan, &mut q) {
                Some(req) => sent.push((worker, req.word.clone(), req.body.unwrap())),
                None => stopped[worker] = true,
            }
        }
        worker = 1 - worker;
    }
    assert_eq!(sent.len(), 2);
    let mut bodies: Vec<String> = sent.iter().map(|s| s.2.clone()).collect();
    bodies.sort();
    assert_eq!(bodies, vec!["user=alice".to_string(), "user=bob".to_string()]);
    for (_, word, body) in &sent {
        assert_eq!(body, &format!("user={}", word));
    }
}

#[test]
fn request_materializes_headers_and_body() {
    let hs = words(&["Authorization: Bearer ##t##", "##k##: v"]);
    let plan = SubstitutionPlan::new(&hs, &Some("{\"id\":\"##x##\"}".to_string()), "##").unwrap();
    let req = plan.materialize("abc");
    assert_eq!(req.word, "abc");
    assert_eq!(
        req.headers,
        vec![
            ("Authorization".to_string(), "Bearer abc".to_string()),
            ("abc".to_string(), "v".to_string()),
        ]
    );
    assert_eq!(req.body, Some("{\"id\":\"abc\"}".to_string()));
    let plan = SubstitutionPlan::new(&Vec::new(), &None, "##").unwrap();
    assert!(!plan.has_body());
    assert_eq!(plan.materialize("w").body, None);
}

#[test]
fn methods_are_checked_by_name() {
    assert_eq!(HttpMethod::parse("GET"), Ok(HttpMethod::Get));
    assert_eq!(HttpMethod::parse("OPTIONS"), Ok(HttpMethod::Options));
    assert_eq!(HttpMethod::parse("TRACE"), Ok(HttpMethod::Trace));
    assert_eq!(HttpMethod::parse("get"), Err(InvalidMethod));
    assert_eq!(HttpMethod::parse("FETCH"), Err(InvalidMethod));
    assert_eq!(HttpMethod::parse(""), Err(InvalidMethod));
    assert_eq!(HttpMethod::Patch.as_str(), "PATCH");
    assert_eq!(HttpMethod::Delete.as_str(), "DELETE");
}

#[test]
fn pause_scales_with_concurrency() {
    let p = DispatchPolicy { follow_redirects: false, verbose: false, delay_millis: Some(250) };
    assert_eq!(p.pause_after_request(4), Some(1000));
    assert_eq!(p.pause_after_request(1), Some(250));
    let none = DispatchPolicy { follow_redirects: true, verbose: true, delay_millis: None };
    assert_eq!(none.pause_after_request(8), None);
    let big = DispatchPolicy { follow_redirects: false, verbose: false, delay_millis: Some(u64::MAX) };
    assert_eq!(big.pause_after_request(2), Some(u64::MAX));
}

#[test]
fn output_length_follows_the_spans() {
    let t = compile("x##abc##y", "##").unwrap();
    let out = t.materialize("12345");
    assert_eq!(out, "x12345y");
    assert_eq!(out.chars().count(), 9 - 7 + 5);
}
