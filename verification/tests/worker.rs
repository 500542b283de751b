use myriad::server::ServerEvent;
use myriad::worker::opened;
use myriad::worker::read;
use myriad::worker::strip_terminator;
use myriad::worker::ClientIds;
use myriad::worker::ReadOutcome;
use myriad::worker::WorkerStep;
use myriad::worker::MAX_LINE_BYTES;

#[test]
fn client_ids_start_at_one_and_increase() {
    let mut ids = ClientIds::new();
    assert_eq!(ids.assign(), Some(1));
    assert_eq!(ids.assign(), Some(2));
    assert_eq!(ids.assign(), Some(3));
}

#[test]
fn opened_announces_the_connection() {
    assert_eq!(
        opened(3, String::from("10.0.0.1:5000")),
        ServerEvent::ClientConnected { client_id: 3, host: String::from("10.0.0.1:5000") }
    );
}

#[test]
fn a_line_is_handed_on_without_its_terminator() {
    assert_eq!(
        read(3, ReadOutcome::Line(String::from("NICK alice\r\n"))),
        WorkerStep::Emit(ServerEvent::IrcCommand {
            client_id: 3,
            message: String::from("NICK alice")
        })
    );
    assert_eq!(
        read(3, ReadOutcome::Line(String::from("NICK alice \n"))),
        WorkerStep::Emit(ServerEvent::IrcCommand {
            client_id: 3,
            message: String::from("NICK alice ")
        })
    );
}

#[test]
fn the_end_of_the_stream_stops_the_worker() {
    assert_eq!(
        read(3, ReadOutcome::End),
        WorkerStep::Stop(ServerEvent::ClientDisconnected { client_id: 3 })
    );
    assert_eq!(
        read(3, ReadOutcome::Line(String::new())),
        WorkerStep::Stop(ServerEvent::ClientDisconnected { client_id: 3 })
    );
}

#[test]
fn a_line_at_the_cap_passes_and_one_above_is_dropped() {
    let mut at_cap = "x".repeat(MAX_LINE_BYTES - 2);
    at_cap.push_str("\r\n");
    assert_eq!(
        read(1, ReadOutcome::Line(at_cap)),
        WorkerStep::Emit(ServerEvent::IrcCommand {
            client_id: 1,
            message: "x".repeat(MAX_LINE_BYTES - 2)
        })
    );
    let mut above = "x".repeat(MAX_LINE_BYTES - 1);
    above.push_str("\r\n");
    assert_eq!(read(1, ReadOutcome::Line(above)), WorkerStep::Skip);
}

#[test]
fn the_cap_counts_bytes() {
    // 171 characters of three bytes each are 513 bytes.
    let wide = "\u{20ac}".repeat(171);
    assert_eq!(read(1, ReadOutcome::Line(wide)), WorkerStep::Skip);
}

#[test]
fn strip_terminator_removes_cr_and_lf_only() {
    assert_eq!(strip_terminator("a\r\n"), "a");
    assert_eq!(strip_terminator("a\n"), "a");
    assert_eq!(strip_terminator("a\r\n\r\n"), "a");
    assert_eq!(strip_terminator("a \r\n"), "a ");
    assert_eq!(strip_terminator("\r\n"), "");
    assert_eq!(strip_terminator("a\nb"), "a\nb");
    assert_eq!(strip_terminator(""), "");
}
