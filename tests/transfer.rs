use p2p_transfer::command::{parse_command, read_command, request_line, Command, Direction};
use p2p_transfer::session::{Action, Event, Outcome, Phase, Session, BUFFER_SIZE};
use std::collections::HashMap;

/// Performs a session's actions against memory: the connection delivers
/// `incoming` in reads of at most `read_size` bytes, and files live in a map.
struct Driver {
    session: Session,
    incoming: Vec<u8>,
    cursor: usize,
    read_size: usize,
    sent: Vec<u8>,
    current: Option<String>,
    file_pos: usize,
    event: Option<Event>,
}

impl Driver {
    fn new(session: Session, incoming: Vec<u8>, read_size: usize) -> Driver {
        Driver {
            session,
            incoming,
            cursor: 0,
            read_size,
            sent: Vec::new(),
            current: None,
            file_pos: 0,
            event: Some(Event::Started),
        }
    }

    /// Takes one step; returns the outcome once the session ends.
    fn advance(&mut self, files: &mut HashMap<String, Vec<u8>>) -> Option<Outcome> {
        let e = self.event.take().expect("session already finished");
        let next = match self.session.step(e) {
            Action::ReadStream => {
                let end = usize::min(self.cursor + self.read_size, self.incoming.len());
                let chunk = self.incoming[self.cursor..end].to_vec();
                self.cursor = end;
                Event::Received(chunk)
            }
            Action::WriteStream(b) => {
                self.sent.extend_from_slice(&b);
                Event::Completed
            }
            Action::CheckFile(n) => Event::Checked(files.contains_key(&n)),
            Action::CreateFile(n) => {
                files.insert(n.clone(), Vec::new());
                self.current = Some(n);
                Event::Completed
            }
            Action::OpenFile(n) => {
                if files.contains_key(&n) {
                    self.current = Some(n);
                    self.file_pos = 0;
                    Event::Completed
                } else {
                    Event::Failed(format!("cannot open {}", n))
                }
            }
            Action::ReadFile => {
                let data = &files[self.current.as_ref().unwrap()];
                let end = usize::min(self.file_pos + BUFFER_SIZE, data.len());
                let chunk = data[self.file_pos..end].to_vec();
                self.file_pos = end;
                Event::Loaded(chunk)
            }
            Action::WriteFile(b) => {
                files.get_mut(self.current.as_ref().unwrap()).unwrap().extend_from_slice(&b);
                Event::Completed
            }
            Action::Connect => Event::Completed,
            Action::Finish(o) => return Some(o),
        };
        self.event = Some(next);
        None
    }

    fn finish(&mut self, files: &mut HashMap<String, Vec<u8>>) -> Outcome {
        loop {
            if let Some(o) = self.advance(files) {
                return o;
            }
        }
    }
}

fn sample(len: usize) -> Vec<u8> {
    (0..len).map(|i| (i * 7 + i / 256) as u8).collect()
}

/// Uploads `data` as `name` from a client to a server whose reads are
/// `server_read` bytes long; returns the server's files.
fn upload(name: &str, data: &[u8], server_read: usize) -> HashMap<String, Vec<u8>> {
    let mut local = HashMap::new();
    local.insert(name.to_string(), data.to_vec());
    let mut client = Driver::new(Session::client(Direction::Upload, name.to_string()), Vec::new(), BUFFER_SIZE);
    assert_eq!(client.finish(&mut local), Outcome::Uploaded(name.to_string()));
    let mut remote = HashMap::new();
    let mut server = Driver::new(Session::server(), client.sent, server_read);
    assert_eq!(server.finish(&mut remote), Outcome::Uploaded(name.to_string()));
    remote
}

/// Downloads `name` from a server holding `remote`; the client's reads are
/// `client_read` bytes long. Returns the client's outcome and files.
fn download(
    name: &str,
    remote: &mut HashMap<String, Vec<u8>>,
    client_read: usize,
) -> (Outcome, HashMap<String, Vec<u8>>) {
    let request = request_line(Direction::Download, name);
    let mut server = Driver::new(Session::server(), request, BUFFER_SIZE);
    server.finish(remote);
    let mut local = HashMap::new();
    let mut client = Driver::new(Session::client(Direction::Download, name.to_string()), server.sent, client_read);
    let o = client.finish(&mut local);
    (o, local)
}

#[test]
fn parses_upload() {
    assert_eq!(parse_command("UPLOAD foo.txt"), Command::Upload("foo.txt".to_string()));
}

#[test]
fn parses_download_with_surrounding_space() {
    assert_eq!(parse_command("DOWNLOAD  bar.bin  "), Command::Download("bar.bin".to_string()));
}

#[test]
fn unknown_keyword_is_invalid() {
    assert_eq!(parse_command("FOO bar"), Command::Invalid("FOO bar".to_string()));
}

#[test]
fn keyword_without_name_is_invalid() {
    assert_eq!(parse_command("UPLOAD"), Command::Invalid("UPLOAD".to_string()));
    assert_eq!(parse_command("UPLOAD \n"), Command::Invalid("UPLOAD".to_string()));
    assert_eq!(parse_command("DOWNLOAD"), Command::Invalid("DOWNLOAD".to_string()));
}

#[test]
fn keyword_needs_a_space() {
    assert_eq!(parse_command("UPLOADx"), Command::Invalid("UPLOADx".to_string()));
    assert_eq!(parse_command("UPLOAD\tx"), Command::Invalid("UPLOAD\tx".to_string()));
    assert_eq!(parse_command("upload x"), Command::Invalid("upload x".to_string()));
}

#[test]
fn name_is_trimmed_of_unicode_space() {
    assert_eq!(parse_command("  UPLOAD  \u{a0}  x"), Command::Upload("x".to_string()));
}

#[test]
fn first_line_is_the_command_and_the_rest_is_payload() {
    let (c, rest) = read_command(b"UPLOAD a.txt\nhello\nworld");
    assert_eq!(c, Command::Upload("a.txt".to_string()));
    assert_eq!(rest, b"hello\nworld".to_vec());
    let (c, rest) = read_command(b"DOWNLOAD b.bin");
    assert_eq!(c, Command::Download("b.bin".to_string()));
    assert!(rest.is_empty());
}

#[test]
fn invalid_utf8_is_replaced() {
    let (c, _) = read_command(b"UPLOAD a\xffb\n");
    assert_eq!(c, Command::Upload("a\u{fffd}b".to_string()));
}

#[test]
fn empty_first_read_is_invalid() {
    let (c, rest) = read_command(b"");
    assert_eq!(c, Command::Invalid(String::new()));
    assert!(rest.is_empty());
}

#[test]
fn request_lines() {
    assert_eq!(request_line(Direction::Upload, "x y.txt"), b"UPLOAD x y.txt\n".to_vec());
    assert_eq!(request_line(Direction::Download, "\u{e9}"), b"DOWNLOAD \xc3\xa9\n".to_vec());
}

#[test]
fn round_trip_keeps_bytes() {
    let data = sample(3000);
    let mut remote = upload("f.dat", &data, 700);
    assert_eq!(remote["f.dat"], data);
    let (o, local) = download("f.dat", &mut remote, 333);
    assert_eq!(o, Outcome::Downloaded("f.dat".to_string()));
    assert_eq!(local["f.dat"], data);
}

#[test]
fn round_trip_with_payload_in_first_read() {
    let data = sample(50);
    let remote = upload("g.dat", &data, BUFFER_SIZE);
    assert_eq!(remote["g.dat"], data);
}

#[test]
fn download_twice_is_identical() {
    let data = sample(2500);
    let mut remote = upload("d.bin", &data, BUFFER_SIZE);
    let (_, first) = download("d.bin", &mut remote, 100);
    let (_, second) = download("d.bin", &mut remote, 1024);
    assert_eq!(first["d.bin"], second["d.bin"]);
    assert_eq!(first["d.bin"], data);
}

#[test]
fn missing_file_gives_empty_download() {
    let mut remote: HashMap<String, Vec<u8>> = HashMap::new();
    let mut server = Driver::new(Session::server(), request_line(Direction::Download, "nope"), BUFFER_SIZE);
    assert_eq!(server.finish(&mut remote), Outcome::NotFound("nope".to_string()));
    assert!(server.sent.is_empty());
    let (o, local) = download("nope", &mut remote, BUFFER_SIZE);
    assert_eq!(o, Outcome::Downloaded("nope".to_string()));
    assert_eq!(local["nope"], Vec::<u8>::new());
}

#[test]
fn large_file_crosses_many_chunks() {
    let data = sample(10 * BUFFER_SIZE);
    for (up_read, down_read) in [(16usize, 1usize), (999, 999), (BUFFER_SIZE, BUFFER_SIZE), (4096, 7)] {
        let mut remote = upload("big", &data, up_read);
        assert_eq!(remote["big"], data);
        let (_, local) = download("big", &mut remote, down_read);
        assert_eq!(local["big"], data);
    }
}

#[test]
fn concurrent_sessions_stay_apart() {
    let a = sample(1500);
    let b: Vec<u8> = sample(2100).into_iter().map(|x| x ^ 0x5a).collect();
    let mut line_a = request_line(Direction::Upload, "a.bin");
    line_a.extend_from_slice(&a);
    let mut line_b = request_line(Direction::Upload, "b.bin");
    line_b.extend_from_slice(&b);
    let mut remote = HashMap::new();
    let mut one = Driver::new(Session::server(), line_a, 300);
    let mut two = Driver::new(Session::server(), line_b, 512);
    let mut done_one = None;
    let mut done_two = None;
    while done_one.is_none() || done_two.is_none() {
        if done_one.is_none() {
            done_one = one.advance(&mut remote);
        }
        if done_two.is_none() {
            done_two = two.advance(&mut remote);
        }
    }
    assert_eq!(done_one, Some(Outcome::Uploaded("a.bin".to_string())));
    assert_eq!(done_two, Some(Outcome::Uploaded("b.bin".to_string())));
    assert_eq!(remote["a.bin"], a);
    assert_eq!(remote["b.bin"], b);
}

#[test]
fn zero_length_file_round_trip() {
    let mut remote = upload("empty", &[], BUFFER_SIZE);
    assert_eq!(remote["empty"], Vec::<u8>::new());
    let (o, local) = download("empty", &mut remote, BUFFER_SIZE);
    assert_eq!(o, Outcome::Downloaded("empty".to_string()));
    assert_eq!(local["empty"], Vec::<u8>::new());
}

#[test]
fn client_skips_missing_file() {
    let mut s = Session::client(Direction::Upload, "gone".to_string());
    assert_eq!(s.step(Event::Started), Action::CheckFile("gone".to_string()));
    assert_eq!(s.step(Event::Checked(false)), Action::Finish(Outcome::NotFound("gone".to_string())));
    assert!(s.is_finished());
}

#[test]
fn invalid_command_ends_session() {
    let mut s = Session::server();
    assert_eq!(s.step(Event::Started), Action::ReadStream);
    assert_eq!(s.phase(), Phase::AwaitCommand);
    assert_eq!(
        s.step(Event::Received(b"HELLO there\n".to_vec())),
        Action::Finish(Outcome::Invalid("HELLO there".to_string()))
    );
}

#[test]
fn io_failure_ends_session() {
    let mut s = Session::server();
    s.step(Event::Started);
    assert_eq!(s.step(Event::Received(b"UPLOAD x\n".to_vec())), Action::CreateFile("x".to_string()));
    assert_eq!(s.step(Event::Completed), Action::ReadStream);
    assert_eq!(s.step(Event::Received(vec![1, 2])), Action::WriteFile(vec![1, 2]));
    assert_eq!(
        s.step(Event::Failed("disk full".to_string())),
        Action::Finish(Outcome::Failed("disk full".to_string()))
    );
    assert_eq!(s.step(Event::Completed), Action::Finish(Outcome::Unexpected));
}

#[test]
fn command_split_across_reads_is_not_recognised() {
    let mut s = Session::server();
    s.step(Event::Started);
    assert_eq!(
        s.step(Event::Received(b"U".to_vec())),
        Action::Finish(Outcome::Invalid("U".to_string()))
    );
}

#[test]
fn out_of_order_event_is_unexpected() {
    let mut s = Session::server();
    assert_eq!(s.step(Event::Completed), Action::Finish(Outcome::Unexpected));
    assert!(s.is_finished());
}

#[test]
fn client_upload_sends_request_then_file() {
    let mut local = HashMap::new();
    local.insert("u.txt".to_string(), b"abc".to_vec());
    let mut c = Driver::new(Session::client(Direction::Upload, "u.txt".to_string()), Vec::new(), BUFFER_SIZE);
    assert_eq!(c.finish(&mut local), Outcome::Uploaded("u.txt".to_string()));
    assert_eq!(c.sent, b"UPLOAD u.txt\nabc".to_vec());
}

#[test]
fn request_line_reads_back_as_its_command() {
    let mut bytes = request_line(Direction::Download, "caf\u{e9} menu.txt");
    bytes.extend_from_slice(b"tail");
    let (c, rest) = read_command(&bytes);
    assert_eq!(c, Command::Download("caf\u{e9} menu.txt".to_string()));
    assert_eq!(rest, b"tail".to_vec());
}
