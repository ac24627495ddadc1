use sts1_edu_scheduler::command::Event;
use sts1_edu_scheduler::command::ExecutionContext;
use sts1_edu_scheduler::command::ProgramStatus;
use sts1_edu_scheduler::command::ResultId;
use sts1_edu_scheduler::command::RetryEvent;
use sts1_edu_scheduler::communication::socket::read_object;
use sts1_edu_scheduler::communication::socket::SocketError;
use sts1_edu_scheduler::filevec::FileVec;

fn status(program_id: u16, timestamp: u32, exit_code: u8) -> Event {
    Event::Status(ProgramStatus { program_id, timestamp, exit_code })
}

fn result(program_id: u16, timestamp: u32) -> Event {
    Event::Result(ResultId { program_id, timestamp })
}

#[test]
fn retry_event_starts_with_five_tries() {
    let queued = RetryEvent::new(Event::EnableDosimeter);
    assert_eq!(queued.retries, 5);
    assert_eq!(queued.event, Event::EnableDosimeter);
}

#[test]
fn events_are_encoded_for_the_wire() {
    assert_eq!(Vec::from(status(0x0102, 0x0304_0506, 7)), vec![1, 2, 1, 6, 5, 4, 3, 7]);
    assert_eq!(Vec::from(result(0x0102, 0x0304_0506)), vec![2, 2, 1, 6, 5, 4, 3]);
    assert_eq!(Vec::from(Event::EnableDosimeter), vec![3]);
    assert_eq!(Vec::from(Event::DisableDosimeter), vec![4]);
}

#[test]
fn socket_lines_name_events() {
    assert_eq!(Event::from_str("dosimeter/on"), Ok(Event::EnableDosimeter));
    assert_eq!(Event::from_str("dosimeter/off"), Ok(Event::DisableDosimeter));
    assert_eq!(Event::from_str("dosimeter/"), Err(()));
    assert_eq!(Event::from_str(""), Err(()));
    assert_eq!(Event::from_str("shutdown"), Err(()));
}

#[test]
fn new_context_is_idle() {
    let context = ExecutionContext::new(&[]);
    assert!(!context.is_student_program_running());
    assert!(!context.has_data_ready());
    assert!(!context.update_pin.high);
    assert!(!context.running_flag);
}

#[test]
fn empty_queue_reports_nothing() {
    let mut context = ExecutionContext::new(&[]);
    assert_eq!(context.next_status(), vec![0]);
    assert!(!context.update_pin.high);
}

#[test]
fn status_has_priority() {
    let mut context = ExecutionContext::new(&[]);
    context.push_event(Event::EnableDosimeter);
    context.push_event(result(15, 0));
    context.push_event(status(15, 0, 0));
    context.push_event(status(16, 1, 2));
    assert!(context.update_pin.high);

    assert_eq!(context.next_status(), vec![1, 15, 0, 0, 0, 0, 0, 0]);
    assert_eq!(context.next_status(), vec![1, 16, 0, 1, 0, 0, 0, 2]);
    assert_eq!(context.next_status(), vec![3]);
    assert_eq!(context.next_status(), vec![2, 15, 0, 0, 0, 0, 0]);
    assert!(context.update_pin.high);
}

#[test]
fn result_is_offered_five_times() {
    let mut context = ExecutionContext::new(&[]);
    context.program_finished(ProgramStatus { program_id: 8, timestamp: 0, exit_code: 0 });
    assert!(!context.running_flag);
    assert_eq!(context.next_status(), vec![1, 8, 0, 0, 0, 0, 0, 0]);
    for _ in 0..5 {
        assert!(context.update_pin.high);
        assert_eq!(context.next_status(), vec![2, 8, 0, 0, 0, 0, 0]);
    }
    assert!(!context.update_pin.high);
    assert_eq!(context.next_status(), vec![0]);
}

#[test]
fn deleting_a_result_takes_the_earliest_match() {
    let mut context = ExecutionContext::new(&[]);
    context.push_event(result(1, 0));
    context.push_event(result(2, 0));
    context.push_event(result(1, 0));

    assert!(context.delete_result(ResultId { program_id: 1, timestamp: 0 }));
    assert_eq!(
        context.event_vec.as_ref(),
        &vec![RetryEvent::new(result(2, 0)), RetryEvent::new(result(1, 0))]
    );
    assert!(!context.delete_result(ResultId { program_id: 3, timestamp: 0 }));
    assert!(context.delete_result(ResultId { program_id: 2, timestamp: 0 }));
    assert!(context.delete_result(ResultId { program_id: 1, timestamp: 0 }));
    assert!(!context.has_data_ready());
    assert!(!context.update_pin.high);
}

#[test]
fn finished_program_queues_status_then_result() {
    let mut context = ExecutionContext::new(&[]);
    context.supervisor_started();
    assert!(context.is_student_program_running());
    assert!(context.running_flag);

    context.program_finished(ProgramStatus { program_id: 1, timestamp: 2, exit_code: 3 });

    assert_eq!(
        context.event_vec.as_ref(),
        &vec![RetryEvent::new(status(1, 2, 3)), RetryEvent::new(result(1, 2))]
    );
    assert!(!context.running_flag);
    assert!(context.update_pin.high);
    assert!(context.is_student_program_running());
}

#[test]
fn queue_comes_back_from_its_image() {
    let mut context = ExecutionContext::new(&[]);
    context.push_event(status(1, 2, 3));
    context.push_event(result(1, 2));
    context.push_event(Event::EnableDosimeter);
    context.push_event(Event::DisableDosimeter);
    assert_eq!(context.next_status(), vec![1, 1, 0, 2, 0, 0, 0, 3]);
    assert_eq!(context.next_status(), vec![2, 1, 0, 2, 0, 0, 0]);

    let image = context.event_vec.image().unwrap();
    assert!(!image.is_empty());

    let reopened = ExecutionContext::new(&image);
    assert_eq!(reopened.event_vec.as_ref(), context.event_vec.as_ref());
    assert_eq!(
        reopened.event_vec.as_ref(),
        &vec![
            RetryEvent { retries: 4, event: result(1, 2) },
            RetryEvent { retries: 5, event: Event::EnableDosimeter },
            RetryEvent { retries: 5, event: Event::DisableDosimeter },
        ]
    );
    assert!(reopened.update_pin.high);
}

#[test]
fn image_is_messagepack() {
    let mut queue = FileVec::from_file(&[]);
    queue.push(RetryEvent::new(status(1, 2, 3)));
    // an array of one array of five small integers
    assert_eq!(queue.image().unwrap(), vec![0x91, 0x95, 5, 1, 1, 2, 3]);
}

#[test]
fn undecodable_file_opens_empty() {
    let context = ExecutionContext::new(&[0xc1, 0xff, 0x00]);
    assert!(context.event_vec.as_ref().is_empty());
    assert!(!context.update_pin.high);

    // a record with a tag that names no event
    let unknown_tag = rmp_serde::to_vec(&vec![(5u32, 9u8, 0u16, 0u32, 0u8)]).unwrap();
    assert!(FileVec::from_file(&unknown_tag).as_ref().is_empty());

    // a record with no try left
    let no_try = rmp_serde::to_vec(&vec![(0u32, 3u8, 0u16, 0u32, 0u8)]).unwrap();
    assert_eq!(FileVec::from_file(&no_try).as_ref().len(), 1);
    assert!(ExecutionContext::new(&no_try).event_vec.as_ref().is_empty());
}

#[test]
fn mutation_after_a_corrupt_file_overwrites_it() {
    let mut context = ExecutionContext::new(b"not a queue");
    context.push_event(Event::EnableDosimeter);
    let image = context.event_vec.image().unwrap();
    assert_eq!(
        ExecutionContext::new(&image).event_vec.as_ref(),
        &vec![RetryEvent::new(Event::EnableDosimeter)]
    );
}

#[test]
fn file_vec_is_an_ordered_sequence() {
    let mut f: FileVec<i32> = FileVec::open(None);
    assert_eq!(f.as_ref().len(), 0);
    f.extend(vec![0, 1, 2, 3, 4, 5, 6]);
    assert_eq!(f.remove(2), 2);
    let at = f.as_ref().iter().position(|&x| x == 5).unwrap();
    assert_eq!(f.remove(at), 5);
    assert_eq!(f.as_ref(), &vec![0, 1, 3, 4, 6]);
    assert_eq!(f.pop(), Some(6));
    assert_eq!(f.pop(), Some(4));
    f.push(123);
    assert_eq!(*f.index(3), 123);
    f.as_mut().push(456);
    assert_eq!(f.as_ref(), &vec![0, 1, 3, 123, 456]);

    let g: FileVec<u8> = FileVec::open(Some(vec![1, 2, 3, 4, 5]));
    assert_eq!(g.as_ref(), &vec![1, 2, 3, 4, 5]);
    let mut h: FileVec<u8> = FileVec::open(None);
    assert_eq!(h.pop(), None);
}

#[test]
fn socket_lines_are_read() {
    assert_eq!(read_object("dosimeter/on\n"), Ok(Event::EnableDosimeter));
    assert_eq!(read_object("dosimeter/off\n"), Ok(Event::DisableDosimeter));
    assert_eq!(read_object("dosimeter/on \t\r\n"), Ok(Event::EnableDosimeter));
    assert_eq!(read_object("dosimeter/on\u{a0}\u{3000}\n"), Ok(Event::EnableDosimeter));
    assert_eq!(read_object(" dosimeter/on\n"), Err(SocketError::InvalidData));
    assert_eq!(read_object("invalid\n"), Err(SocketError::InvalidData));
    assert_eq!(read_object("\n"), Err(SocketError::InvalidData));
    assert_eq!(read_object("shutdown\n"), Err(SocketError::Shutdown));
    assert_eq!(read_object("shutdown \n"), Err(SocketError::InvalidData));
    assert_eq!(read_object(""), Err(SocketError::ConnectionAborted));
    assert_eq!(read_object("dosimeter/on"), Err(SocketError::ConnectionAborted));
    assert_eq!(read_object("1234"), Err(SocketError::ConnectionAborted));
}

#[test]
fn white_space_is_what_std_trims() {
    for code in 0..0x3100u32 {
        if let Some(c) = char::from_u32(code) {
            let line = format!("dosimeter/on{c}\n");
            let trimmed_by_std = line.trim_end() == "dosimeter/on";
            assert_eq!(
                read_object(&line) == Ok(Event::EnableDosimeter),
                trimmed_by_std,
                "U+{code:04X}"
            );
        }
    }
}
