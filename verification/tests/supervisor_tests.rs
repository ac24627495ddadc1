use sts1_edu_scheduler::command::common::Termination;
use sts1_edu_scheduler::command::common::TerminationAction;
use sts1_edu_scheduler::command::common::TerminationEvent;
use sts1_edu_scheduler::command::execute_program::add_to_archive_if_exists;
use sts1_edu_scheduler::command::execute_program::ExitStatus;
use sts1_edu_scheduler::command::execute_program::Supervisor;
use sts1_edu_scheduler::command::execute_program::SupervisorAction;
use sts1_edu_scheduler::command::execute_program::SupervisorEvent;
use sts1_edu_scheduler::command::paths::archive_file;
use sts1_edu_scheduler::command::paths::bundle_file;
use sts1_edu_scheduler::command::paths::program_directory;
use sts1_edu_scheduler::command::paths::program_entry;
use sts1_edu_scheduler::command::paths::result_file;
use sts1_edu_scheduler::command::paths::student_log_file;
use sts1_edu_scheduler::command::build_result_archive;
use sts1_edu_scheduler::command::terminate_student_program;
use sts1_edu_scheduler::command::Cause;
use sts1_edu_scheduler::command::CommandError;
use sts1_edu_scheduler::command::Event;
use sts1_edu_scheduler::command::ExecutionContext;
use sts1_edu_scheduler::command::ProgramStatus;
use sts1_edu_scheduler::command::ResultId;
use sts1_edu_scheduler::config::Configuration;
use sts1_edu_scheduler::simple_archive::Compression;
use sts1_edu_scheduler::simple_archive::Reader;
use sts1_edu_scheduler::simple_archive::Writer;

#[test]
fn program_that_exits_in_time_keeps_its_code() {
    let (mut supervisor, first) = Supervisor::start(2);
    assert_eq!(first, SupervisorAction::Wait);
    assert_eq!(
        supervisor.step(SupervisorEvent::WaitElapsed { running_flag: true }),
        SupervisorAction::Wait
    );
    assert_eq!(
        supervisor.step(SupervisorEvent::ChildExited(ExitStatus::Exited(3))),
        SupervisorAction::Finish(3)
    );
    assert_eq!(supervisor, Supervisor::Finished);
}

#[test]
fn exit_codes_are_cut_to_a_byte() {
    let (mut supervisor, _) = Supervisor::start(1);
    assert_eq!(
        supervisor.step(SupervisorEvent::ChildExited(ExitStatus::Exited(0x1_02))),
        SupervisorAction::Finish(2)
    );
    let (mut supervisor, _) = Supervisor::start(1);
    assert_eq!(
        supervisor.step(SupervisorEvent::ChildExited(ExitStatus::Signaled(9))),
        SupervisorAction::Finish(0)
    );
    let (mut supervisor, _) = Supervisor::start(1);
    assert_eq!(
        supervisor.step(SupervisorEvent::ChildExited(ExitStatus::Undetermined)),
        SupervisorAction::Finish(0)
    );
}

#[test]
fn program_that_runs_out_of_time_is_killed() {
    // program 2, timestamp 1, timeout 1 s
    let (mut supervisor, first) = Supervisor::start(1);
    assert_eq!(first, SupervisorAction::Wait);
    assert_eq!(
        supervisor.step(SupervisorEvent::WaitElapsed { running_flag: true }),
        SupervisorAction::Kill
    );
    let finished = supervisor.step(SupervisorEvent::ChildKilled);
    assert_eq!(finished, SupervisorAction::Finish(255));

    let mut context = ExecutionContext::new(&[]);
    context.supervisor_started();
    if let SupervisorAction::Finish(exit_code) = finished {
        context.program_finished(ProgramStatus { program_id: 2, timestamp: 1, exit_code });
    }
    assert_eq!(context.next_status(), vec![1, 2, 0, 1, 0, 0, 0, 255]);
}

#[test]
fn program_that_is_stopped_is_killed() {
    let (mut supervisor, _) = Supervisor::start(10);
    assert_eq!(
        supervisor.step(SupervisorEvent::WaitElapsed { running_flag: false }),
        SupervisorAction::Kill
    );
    assert_eq!(supervisor.step(SupervisorEvent::ChildKilled), SupervisorAction::Finish(255));
}

#[test]
fn program_without_time_is_killed_at_once() {
    let (mut supervisor, first) = Supervisor::start(0);
    assert_eq!(first, SupervisorAction::Kill);
    assert_eq!(supervisor.step(SupervisorEvent::ChildKilled), SupervisorAction::Finish(255));
}

#[test]
fn child_that_survives_is_beyond_help() {
    let (mut supervisor, _) = Supervisor::start(0);
    assert_eq!(supervisor.step(SupervisorEvent::ChildSurvived), SupervisorAction::Abort);
    let (mut supervisor, _) = Supervisor::start(1);
    assert_eq!(supervisor.step(SupervisorEvent::ChildKilled), SupervisorAction::Abort);
}

#[test]
fn supervisor_waits_as_often_as_it_has_seconds() {
    let (mut supervisor, mut action) = Supervisor::start(5);
    let mut waits = 0;
    while action == SupervisorAction::Wait {
        waits += 1;
        action = supervisor.step(SupervisorEvent::WaitElapsed { running_flag: true });
    }
    assert_eq!(waits, 5);
    assert_eq!(action, SupervisorAction::Kill);
}

#[test]
fn termination_has_nothing_to_do_without_a_program() {
    let mut context = ExecutionContext::new(&[]);
    let mut progress = Termination::new();
    assert_eq!(
        terminate_student_program(&mut context, &mut progress, TerminationEvent::Begin),
        TerminationAction::Done
    );
}

#[test]
fn termination_clears_the_flag_and_joins() {
    let mut context = ExecutionContext::new(&[]);
    context.supervisor_started();
    let mut progress = Termination::new();
    assert_eq!(
        terminate_student_program(&mut context, &mut progress, TerminationEvent::Begin),
        TerminationAction::Poll
    );
    assert!(!context.running_flag);
    assert_eq!(
        terminate_student_program(
            &mut context,
            &mut progress,
            TerminationEvent::Polled { finished: false }
        ),
        TerminationAction::Poll
    );
    assert_eq!(
        terminate_student_program(
            &mut context,
            &mut progress,
            TerminationEvent::Polled { finished: true }
        ),
        TerminationAction::Join
    );
    assert!(context.is_student_program_running());
    assert_eq!(
        terminate_student_program(
            &mut context,
            &mut progress,
            TerminationEvent::Joined { panicked: false }
        ),
        TerminationAction::Done
    );
    assert!(!context.is_student_program_running());
}

#[test]
fn termination_gives_up_after_twenty_polls() {
    let mut context = ExecutionContext::new(&[]);
    context.supervisor_started();
    let mut progress = Termination::new();
    let mut action =
        terminate_student_program(&mut context, &mut progress, TerminationEvent::Begin);
    let mut polls = 0;
    while action == TerminationAction::Poll {
        polls += 1;
        action = terminate_student_program(
            &mut context,
            &mut progress,
            TerminationEvent::Polled { finished: false },
        );
    }
    assert_eq!(polls, 20);
    assert_eq!(
        action,
        TerminationAction::Fail(CommandError::NonRecoverable(Cause::SupervisorStuck))
    );
}

#[test]
fn panicked_supervisor_fails_the_termination() {
    let mut context = ExecutionContext::new(&[]);
    context.supervisor_started();
    let mut progress = Termination::new();
    terminate_student_program(&mut context, &mut progress, TerminationEvent::Begin);
    terminate_student_program(
        &mut context,
        &mut progress,
        TerminationEvent::Polled { finished: true },
    );
    assert_eq!(
        terminate_student_program(
            &mut context,
            &mut progress,
            TerminationEvent::Joined { panicked: true }
        ),
        TerminationAction::Fail(CommandError::NonRecoverable(Cause::SupervisorPanicked))
    );
    assert!(!context.is_student_program_running());
}

#[test]
fn bundle_holds_the_three_files() {
    let id = ResultId { program_id: 1, timestamp: 0 };
    let bundle = build_result_archive(
        id,
        Some(vec![0xde, 0xad]),
        Some(b"some output".to_vec()),
        Some(b"a log line".to_vec()),
    )
    .unwrap();

    let mut reader = Reader::new(bundle);
    let first = reader.next().unwrap().unwrap();
    assert_eq!(first.path, "1_0");
    assert_eq!(first.data, vec![0xde, 0xad]);
    let second = reader.next().unwrap().unwrap();
    assert_eq!(second.path, "student_log");
    assert_eq!(second.data, b"some output".to_vec());
    let third = reader.next().unwrap().unwrap();
    assert_eq!(third.path, "log");
    assert_eq!(third.data, b"a log line".to_vec());
    assert!(reader.next().is_none());
}

#[test]
fn bundle_leaves_missing_files_out() {
    let id = ResultId { program_id: 7, timestamp: 9 };
    assert_eq!(build_result_archive(id, None, None, None), Ok(vec![]));
    assert_eq!(
        build_result_archive(id, Some(vec![5]), None, None),
        Ok(vec![3, b'7', b'_', b'9', 1, 0, 0, 0, 5])
    );
}

#[test]
fn files_are_cut_to_a_million_bytes() {
    let mut archive = Writer::new(vec![]);
    add_to_archive_if_exists(&mut archive, "big", Some(vec![1; 1_000_001]), Compression::Stored)
        .unwrap();
    let bytes = archive.into_inner();
    assert_eq!(bytes.len(), 1 + 3 + 4 + 1_000_000);
    assert_eq!(&bytes[4..8], &1_000_000u32.to_le_bytes());

    let mut archive = Writer::new(vec![]);
    add_to_archive_if_exists(&mut archive, "fits", Some(vec![1; 1_000_000]), Compression::Stored)
        .unwrap();
    assert_eq!(archive.into_inner().len(), 1 + 4 + 4 + 1_000_000);
}

#[test]
fn results_and_files_have_their_names() {
    let id = ResultId { program_id: 65535, timestamp: 4_294_967_295 };
    assert_eq!(id.to_string(), "65535_4294967295");
    assert_eq!(ResultId { program_id: 0, timestamp: 0 }.to_string(), "0_0");
    assert_eq!(ResultId { program_id: 10, timestamp: 100 }.to_string(), "10_100");
    assert_eq!(program_directory(1), "./archives/1");
    assert_eq!(program_entry(1), "./archives/1/main.py");
    assert_eq!(archive_file(12), "./data/12.zip");
    let id = ResultId { program_id: 1, timestamp: 20 };
    assert_eq!(result_file(id), "./archives/1/results/20");
    assert_eq!(bundle_file(id), "./data/1_20");
    assert_eq!(student_log_file(id), "./data/1_20.log");
}

#[test]
fn configuration_has_its_defaults() {
    let config = Configuration::default();
    assert_eq!(config.uart, "/dev/serial0");
    assert_eq!(config.baudrate, 921_600);
    assert_eq!(config.heartbeat_pin, 34);
    assert_eq!(config.update_pin, 35);
    assert_eq!(config.heartbeat_freq, 10);
    assert_eq!(config.socket, "/tmp/scheduler_socket");
    assert_eq!(config.heartbeat_half_period(), 50);
    let slow = Configuration { heartbeat_freq: 3, ..Configuration::default() };
    assert_eq!(slow.heartbeat_half_period(), 166);
}

#[test]
fn events_from_the_socket_are_queued() {
    let mut context = ExecutionContext::new(&[]);
    context.push_event(Event::from_str("dosimeter/on").unwrap());
    context.push_event(Event::from_str("dosimeter/off").unwrap());
    assert!(context.update_pin.high);
    assert_eq!(context.next_status(), vec![3]);
    assert_eq!(context.next_status(), vec![4]);
    assert_eq!(context.next_status(), vec![0]);
}
