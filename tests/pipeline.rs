use kafka_bombardier::dispatch::{DispatchError, Dispatcher, RecordState};
use kafka_bombardier::lines::split_lines;

fn strings(items: &[&str]) -> Vec<String> {
    items.iter().map(|s| s.to_string()).collect()
}

fn take(d: &mut Dispatcher, worker: usize) -> Option<(usize, String)> {
    d.next_job(worker).unwrap().map(|j| (j.index, j.payload))
}

#[test]
fn split_lines_plain_text() {
    assert_eq!(split_lines("a\nb\nc"), strings(&["a", "b", "c"]));
    assert_eq!(split_lines("a\nb\nc\n"), strings(&["a", "b", "c"]));
}

#[test]
fn split_lines_empty_text() {
    assert_eq!(split_lines(""), Vec::<String>::new());
    assert_eq!(split_lines("\n"), strings(&[""]));
}

#[test]
fn split_lines_keeps_blank_lines() {
    assert_eq!(split_lines("a\n\nb"), strings(&["a", "", "b"]));
}

#[test]
fn split_lines_drops_carriage_return_before_newline() {
    assert_eq!(split_lines("a\r\nb\r\n"), strings(&["a", "b"]));
    assert_eq!(split_lines("\r\r\n"), strings(&["\r"]));
    assert_eq!(split_lines("x\r"), strings(&["x\r"]));
    assert_eq!(split_lines("a\rb\n"), strings(&["a\rb"]));
}

#[test]
fn split_lines_multibyte_text() {
    assert_eq!(split_lines("héllo\n日本\n"), strings(&["héllo", "日本"]));
}

#[test]
fn single_worker_sends_in_read_order() {
    let mut d = Dispatcher::new(split_lines("a\nb\nc\n"), 1);
    assert_eq!(d.len(), 3);
    assert_eq!(take(&mut d, 0), Some((0, "a".to_string())));
    assert_eq!(d.report(0, true), Ok(()));
    assert_eq!(take(&mut d, 0), Some((1, "b".to_string())));
    assert_eq!(d.report(1, true), Ok(()));
    assert_eq!(take(&mut d, 0), Some((2, "c".to_string())));
    assert_eq!(d.report(2, true), Ok(()));
    assert_eq!(take(&mut d, 0), None);
    assert!(d.is_drained());
}

#[test]
fn two_workers_send_each_line_once() {
    let mut d = Dispatcher::new(strings(&["a", "b"]), 2);
    let first = take(&mut d, 1).unwrap();
    let second = take(&mut d, 0).unwrap();
    assert_eq!(take(&mut d, 0), None);
    assert_eq!(take(&mut d, 1), None);
    let mut payloads = vec![first.1.clone(), second.1.clone()];
    payloads.sort();
    assert_eq!(payloads, strings(&["a", "b"]));
    assert_eq!(d.state(first.0), Some(RecordState::InFlight { worker: 1 }));
    assert_eq!(d.state(second.0), Some(RecordState::InFlight { worker: 0 }));
    assert!(!d.is_drained());
    assert_eq!(d.report(first.0, true), Ok(()));
    assert_eq!(d.report(second.0, true), Ok(()));
    assert!(d.is_drained());
}

#[test]
fn attempts_equal_lines_for_any_pool_size() {
    let lines = strings(&["1", "2", "3", "4", "5", "6", "7"]);
    for workers in 1..5usize {
        let mut d = Dispatcher::new(lines.clone(), workers);
        let mut attempts = 0;
        let mut w = 0;
        while let Some((index, _)) = take(&mut d, w) {
            attempts += 1;
            assert_eq!(d.report(index, index % 2 == 0), Ok(()));
            w = (w + 1) % workers;
        }
        assert_eq!(attempts, lines.len());
        assert!(d.is_drained());
    }
}

#[test]
fn failed_send_does_not_stop_the_rest() {
    let mut d = Dispatcher::new(strings(&["a", "b", "c"]), 2);
    let (i, _) = take(&mut d, 0).unwrap();
    assert_eq!(d.report(i, false), Ok(()));
    assert_eq!(d.state(i), Some(RecordState::Failed { worker: 0 }));
    assert_eq!(take(&mut d, 0), Some((1, "b".to_string())));
    assert_eq!(take(&mut d, 1), Some((2, "c".to_string())));
    assert_eq!(d.report(1, false), Ok(()));
    assert_eq!(d.report(2, true), Ok(()));
    assert_eq!(d.state(2), Some(RecordState::Sent { worker: 1 }));
    assert!(d.is_drained());
}

#[test]
fn unknown_worker_is_refused() {
    let mut d = Dispatcher::new(strings(&["a"]), 2);
    assert_eq!(d.workers(), 2);
    assert_eq!(d.next_job(2).err(), Some(DispatchError::UnknownWorker));
    assert_eq!(d.state(0), Some(RecordState::Waiting));
}

#[test]
fn report_on_record_not_out_is_refused() {
    let mut d = Dispatcher::new(strings(&["a", "b"]), 1);
    assert_eq!(d.report(0, true), Err(DispatchError::NotInFlight));
    assert_eq!(d.report(5, true), Err(DispatchError::NotInFlight));
    let (i, _) = take(&mut d, 0).unwrap();
    assert_eq!(d.report(i, true), Ok(()));
    assert_eq!(d.report(i, false), Err(DispatchError::NotInFlight));
    assert_eq!(d.state(i), Some(RecordState::Sent { worker: 0 }));
    assert_eq!(d.state(9), None);
}

#[test]
fn empty_input_is_drained_at_once() {
    let mut d = Dispatcher::new(Vec::new(), 3);
    assert!(d.is_drained());
    assert_eq!(take(&mut d, 2), None);
}
