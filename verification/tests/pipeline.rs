use elastic_importer::{bulk_payload, Action, BatchAssembler, Driver, Event, Failure, Phase};

fn float_forms(values: &[String]) -> Vec<Option<String>> {
    values.iter().map(|v| v.parse::<f64>().ok().map(|f| f.to_string())).collect()
}

/// Runs a driver over `text` against a transport that accepts every payload
/// and answers with `response`; returns the payloads sent and the last action.
fn run(text: &str, index: &str, batch_size: usize, response: &str) -> (Vec<String>, Action) {
    let mut driver = Driver::new(index.to_string(), batch_size);
    let mut sent = Vec::new();
    let mut action = driver.handle(Event::Reachable(text.to_string()));
    loop {
        action = match action {
            Action::Classify(values) => driver.handle(Event::Floats(float_forms(&values))),
            Action::Send(body) => {
                sent.push(body);
                driver.handle(Event::Sent(response.to_string()))
            }
            last => return (sent, last),
        };
    }
}

fn docs(n: usize) -> String {
    let mut text = String::from("id\n");
    for i in 0..n {
        text.push_str(&format!("{}\n", i + 1));
    }
    text
}

#[test]
fn payload_of_two_documents() {
    let docs = vec!["{\"a\":1}".to_string(), "{\"a\":2}".to_string()];
    assert_eq!(
        bulk_payload("idx", &docs),
        "{\"index\":{\"_index\":\"idx\"}}\n{\"a\":1}\n{\"index\":{\"_index\":\"idx\"}}\n{\"a\":2}\n"
    );
    assert_eq!(bulk_payload("idx", &Vec::new()), "");
}

#[test]
fn index_name_is_not_escaped() {
    let docs = vec!["{}".to_string()];
    assert_eq!(bulk_payload("a\"b", &docs), "{\"index\":{\"_index\":\"a\"b\"}}\n{}\n");
}

#[test]
fn assembler_hands_out_full_windows() {
    let mut batch = BatchAssembler::new("idx".to_string(), 2);
    let mut payloads = Vec::new();
    for i in 0..5 {
        assert_eq!(batch.pending_count(), i % 2);
        if let Some(body) = batch.push(format!("{{\"n\":{}}}", i)) {
            payloads.push(body);
        }
    }
    assert_eq!(payloads.len(), 2);
    assert_eq!(batch.pending_count(), 1);
    let last = batch.finish();
    assert_eq!(last, Some("{\"index\":{\"_index\":\"idx\"}}\n{\"n\":4}\n".to_string()));
    assert_eq!(batch.finish(), None);
    assert_eq!(
        payloads[0],
        "{\"index\":{\"_index\":\"idx\"}}\n{\"n\":0}\n{\"index\":{\"_index\":\"idx\"}}\n{\"n\":1}\n"
    );
    assert_eq!(
        payloads[1],
        "{\"index\":{\"_index\":\"idx\"}}\n{\"n\":2}\n{\"index\":{\"_index\":\"idx\"}}\n{\"n\":3}\n"
    );
}

#[test]
fn assembler_with_nothing_has_nothing_to_finish() {
    let mut batch = BatchAssembler::new("idx".to_string(), 3);
    assert_eq!(batch.finish(), None);
}

#[test]
fn assembler_of_size_one_and_zero_sends_every_document_alone() {
    for size in [0usize, 1] {
        let mut batch = BatchAssembler::new("i".to_string(), size);
        assert_eq!(batch.push("{}".to_string()), Some("{\"index\":{\"_index\":\"i\"}}\n{}\n".to_string()));
        assert_eq!(batch.push("[]".to_string()), Some("{\"index\":{\"_index\":\"i\"}}\n[]\n".to_string()));
        assert_eq!(batch.finish(), None);
    }
}

#[test]
fn five_documents_in_batches_of_two() {
    let (sent, last) = run(&docs(5), "idx", 2, "HTTP/1.1 200 OK\r\n\r\n{\"errors\":false}");
    assert_eq!(sent.len(), 3);
    let lines: Vec<usize> = sent.iter().map(|p| p.lines().count()).collect();
    assert_eq!(lines, vec![4, 4, 2]);
    for payload in &sent {
        assert!(payload.ends_with('\n'));
        assert!(!payload.ends_with("\n\n"));
    }
    assert_eq!(sent[2], "{\"index\":{\"_index\":\"idx\"}}\n{\"id\":5}\n");
    assert_eq!(last, Action::Finish(5));
}

#[test]
fn four_documents_in_batches_of_two_need_no_flush() {
    let (sent, last) = run(&docs(4), "idx", 2, "");
    let lines: Vec<usize> = sent.iter().map(|p| p.lines().count()).collect();
    assert_eq!(lines, vec![4, 4]);
    assert_eq!(last, Action::Finish(4));
}

#[test]
fn batch_size_zero_sends_every_document_alone() {
    let (sent, last) = run(&docs(3), "idx", 0, "");
    let lines: Vec<usize> = sent.iter().map(|p| p.lines().count()).collect();
    assert_eq!(lines, vec![2, 2, 2]);
    assert_eq!(last, Action::Finish(3));
}

#[test]
fn header_alone_sends_nothing() {
    let (sent, last) = run("id,name\n", "idx", 2, "");
    assert!(sent.is_empty());
    assert_eq!(last, Action::Finish(0));
}

#[test]
fn empty_input_sends_nothing() {
    let (sent, last) = run("", "idx", 2, "");
    assert!(sent.is_empty());
    assert_eq!(last, Action::Finish(0));
}

#[test]
fn two_people_in_one_payload() {
    let text = "id,name,active\n1,Alice,true\n2,Bob,\n";
    let (sent, last) = run(text, "people", 10, "HTTP/1.1 200 OK\r\n\r\n{\"errors\":false}");
    assert_eq!(
        sent,
        vec![
            "{\"index\":{\"_index\":\"people\"}}\n{\"id\":1,\"name\":\"Alice\",\"active\":true}\n{\"index\":{\"_index\":\"people\"}}\n{\"id\":2,\"name\":\"Bob\",\"active\":null}\n"
                .to_string()
        ]
    );
    assert_eq!(last, Action::Finish(2));
}

#[test]
fn failed_probe_gives_up_before_anything_is_sent() {
    let mut driver = Driver::new("idx".to_string(), 2);
    assert_eq!(driver.phase(), Phase::Probing);
    assert_eq!(driver.handle(Event::Unreachable), Action::Abort(Failure::Connectivity));
    assert_eq!(driver.phase(), Phase::Failed);
    assert_eq!(driver.total(), 0);
    assert_eq!(
        driver.handle(Event::Reachable("id\n1\n".to_string())),
        Action::Abort(Failure::OutOfTurn)
    );
    assert_eq!(driver.handle(Event::Sent(String::new())), Action::Abort(Failure::OutOfTurn));
    assert_eq!(driver.phase(), Phase::Failed);
}

#[test]
fn driver_asks_for_the_values_of_each_row() {
    let mut driver = Driver::new("idx".to_string(), 2);
    let action = driver.handle(Event::Reachable("a,b\n 1.5 ,x\n".to_string()));
    assert_eq!(action, Action::Classify(vec!["1.5".to_string(), "x".to_string()]));
    assert_eq!(driver.phase(), Phase::Streaming);
    let action = driver.handle(Event::Floats(vec![Some("1.5".to_string()), None]));
    assert_eq!(
        action,
        Action::Send("{\"index\":{\"_index\":\"idx\"}}\n{\"a\":1.5,\"b\":\"x\"}\n".to_string())
    );
    assert_eq!(driver.phase(), Phase::Flushing);
    assert_eq!(driver.total(), 0);
    assert_eq!(driver.handle(Event::Sent(String::new())), Action::Finish(1));
    assert_eq!(driver.phase(), Phase::Done);
    assert_eq!(driver.total(), 1);
}

#[test]
fn failed_send_gives_the_run_up() {
    let mut driver = Driver::new("idx".to_string(), 1);
    let action = driver.handle(Event::Reachable(docs(3)));
    assert_eq!(action, Action::Classify(vec!["1".to_string()]));
    let action = driver.handle(Event::Floats(vec![Some("1".to_string())]));
    assert_eq!(action, Action::Send("{\"index\":{\"_index\":\"idx\"}}\n{\"id\":1}\n".to_string()));
    assert_eq!(driver.phase(), Phase::Streaming);
    assert_eq!(
        driver.handle(Event::SendFailed("write error: broken pipe".to_string())),
        Action::Abort(Failure::Transport("write error: broken pipe".to_string()))
    );
    assert_eq!(driver.phase(), Phase::Failed);
    assert_eq!(driver.total(), 0);
}

#[test]
fn rejected_documents_are_noted_and_counted() {
    let mut driver = Driver::new("idx".to_string(), 1);
    driver.handle(Event::Reachable(docs(2)));
    driver.handle(Event::Floats(vec![None]));
    assert!(!driver.last_rejected());
    let action = driver.handle(Event::Sent("{\"errors\":true}".to_string()));
    assert!(driver.last_rejected());
    assert_eq!(driver.total(), 1);
    assert_eq!(action, Action::Classify(vec!["2".to_string()]));
    driver.handle(Event::Floats(vec![None]));
    let action = driver.handle(Event::Sent("{\"errors\":false}".to_string()));
    assert!(!driver.last_rejected());
    assert_eq!(action, Action::Finish(2));
}

#[test]
fn events_out_of_turn_give_the_run_up() {
    let mut driver = Driver::new("idx".to_string(), 2);
    assert_eq!(driver.handle(Event::Floats(Vec::new())), Action::Abort(Failure::OutOfTurn));
    assert_eq!(driver.phase(), Phase::Failed);

    let mut driver = Driver::new("idx".to_string(), 2);
    driver.handle(Event::Reachable(docs(1)));
    assert_eq!(driver.handle(Event::Sent(String::new())), Action::Abort(Failure::OutOfTurn));

    let mut driver = Driver::new("idx".to_string(), 2);
    driver.handle(Event::Reachable(docs(0)));
    assert_eq!(driver.phase(), Phase::Done);
    assert_eq!(driver.handle(Event::Sent(String::new())), Action::Abort(Failure::OutOfTurn));
    assert_eq!(driver.phase(), Phase::Failed);
}
