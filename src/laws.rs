use vstd::prelude::*;
use crate::command::{
    after_line, command_of, first_line, plain_name, request_bytes, request_is_read_back, Direction,
};
use crate::session::{
    done, new_client, new_server, next, ActionView, EventView, OutcomeView, Phase, SessionView,
};
use crate::text::text_of;

verus! {

/// The state after `events` and the actions asked for on the way, in order.
pub open spec fn run(s: SessionView, events: Seq<EventView>) -> (SessionView, Seq<ActionView>)
    decreases events.len(),
{
    if events.len() == 0 {
        (s, Seq::empty())
    } else {
        let (t, a) = next(s, events[0]);
        let (u, rest) = run(t, events.drop_first());
        (u, seq![a] + rest)
    }
}

/// The bytes that `acts` write to the file, in order.
pub open spec fn file_bytes(acts: Seq<ActionView>) -> Seq<u8>
    decreases acts.len(),
{
    if acts.len() == 0 {
        Seq::empty()
    } else {
        let b = match acts[0] {
            ActionView::WriteFile(b) => b,
            _ => Seq::empty(),
        };
        b + file_bytes(acts.drop_first())
    }
}

/// The bytes that `acts` write to the connection, in order.
pub open spec fn stream_bytes(acts: Seq<ActionView>) -> Seq<u8>
    decreases acts.len(),
{
    if acts.len() == 0 {
        Seq::empty()
    } else {
        let b = match acts[0] {
            ActionView::WriteStream(b) => b,
            _ => Seq::empty(),
        };
        b + stream_bytes(acts.drop_first())
    }
}

/// The chunks one after the other.
pub open spec fn flatten(chunks: Seq<Seq<u8>>) -> Seq<u8>
    decreases chunks.len(),
{
    if chunks.len() == 0 {
        Seq::empty()
    } else {
        chunks[0] + flatten(chunks.drop_first())
    }
}

/// Reads hand back no bytes only at the end.
pub open spec fn all_nonempty(chunks: Seq<Seq<u8>>) -> bool {
    forall|i: int| 0 <= i < chunks.len() ==> #[trigger] chunks[i].len() > 0
}

/// A connection that delivers `chunks`, each stored before the next read,
/// and then closes.
pub open spec fn stream_feed(chunks: Seq<Seq<u8>>) -> Seq<EventView>
    decreases chunks.len(),
{
    if chunks.len() == 0 {
        seq![EventView::Received(Seq::empty())]
    } else {
        seq![EventView::Received(chunks[0]), EventView::Completed] + stream_feed(
            chunks.drop_first(),
        )
    }
}

/// A file read as `chunks`, each sent before the next read, up to its end.
pub open spec fn file_feed(chunks: Seq<Seq<u8>>) -> Seq<EventView>
    decreases chunks.len(),
{
    if chunks.len() == 0 {
        seq![EventView::Loaded(Seq::empty())]
    } else {
        seq![EventView::Loaded(chunks[0]), EventView::Completed] + file_feed(chunks.drop_first())
    }
}

/// The last action of a run: how the session ended.
pub open spec fn last_action(acts: Seq<ActionView>) -> ActionView {
    acts[acts.len() - 1]
}

/// Running two event sequences one after the other is running their
/// concatenation.
pub proof fn lemma_run_append(s: SessionView, e1: Seq<EventView>, e2: Seq<EventView>)
    ensures
        run(s, e1 + e2) == (run(run(s, e1).0, e2).0, run(s, e1).1 + run(run(s, e1).0, e2).1),
    decreases e1.len(),
{
    if e1.len() == 0 {
        assert(e1 + e2 =~= e2);
        assert(run(s, e1).1 + run(s, e2).1 =~= run(s, e2).1);
    } else {
        let t = next(s, e1[0]).0;
        lemma_run_append(t, e1.drop_first(), e2);
        assert((e1 + e2).drop_first() =~= e1.drop_first() + e2);
        let a = next(s, e1[0]).1;
        let r1 = run(t, e1.drop_first()).1;
        let r2 = run(run(t, e1.drop_first()).0, e2).1;
        assert(seq![a] + (r1 + r2) =~= (seq![a] + r1) + r2);
    }
}

pub proof fn lemma_file_bytes_append(a: Seq<ActionView>, b: Seq<ActionView>)
    ensures
        file_bytes(a + b) == file_bytes(a) + file_bytes(b),
    decreases a.len(),
{
    if a.len() == 0 {
        assert(a + b =~= b);
        assert(file_bytes(a) + file_bytes(b) =~= file_bytes(b));
    } else {
        lemma_file_bytes_append(a.drop_first(), b);
        assert((a + b).drop_first() =~= a.drop_first() + b);
        let x = match a[0] {
            ActionView::WriteFile(x) => x,
            _ => Seq::empty(),
        };
        assert(x + (file_bytes(a.drop_first()) + file_bytes(b)) =~= (x + file_bytes(
            a.drop_first(),
        )) + file_bytes(b));
    }
}

pub proof fn lemma_stream_bytes_append(a: Seq<ActionView>, b: Seq<ActionView>)
    ensures
        stream_bytes(a + b) == stream_bytes(a) + stream_bytes(b),
    decreases a.len(),
{
    if a.len() == 0 {
        assert(a + b =~= b);
        assert(stream_bytes(a) + stream_bytes(b) =~= stream_bytes(b));
    } else {
        lemma_stream_bytes_append(a.drop_first(), b);
        assert((a + b).drop_first() =~= a.drop_first() + b);
        let x = match a[0] {
            ActionView::WriteStream(x) => x,
            _ => Seq::empty(),
        };
        assert(x + (stream_bytes(a.drop_first()) + stream_bytes(b)) =~= (x + stream_bytes(
            a.drop_first(),
        )) + stream_bytes(b));
    }
}

/// Copying from the connection to the file, whatever the chunks' sizes:
/// each chunk is written once, in order, and the session ends when the
/// peer closes.
pub proof fn lemma_receive_copies(s: SessionView, chunks: Seq<Seq<u8>>)
    requires
        s.phase == Phase::Receiving,
        all_nonempty(chunks),
    ensures
        run(s, stream_feed(chunks)).0 == (SessionView { phase: Phase::Finished, ..s }),
        file_bytes(run(s, stream_feed(chunks)).1) == flatten(chunks),
        stream_bytes(run(s, stream_feed(chunks)).1) == Seq::<u8>::empty(),
        last_action(run(s, stream_feed(chunks)).1) == ActionView::Finish(done(s)),
    decreases chunks.len(),
{
    let ev = stream_feed(chunks);
    if chunks.len() == 0 {
        let acts = run(s, ev).1;
        assert(ev[0] == EventView::Received(Seq::empty()));
        assert(ev.drop_first() =~= Seq::<EventView>::empty());
        let t = SessionView { phase: Phase::Finished, ..s };
        assert(next(s, ev[0]) == (t, ActionView::Finish(done(s))));
        assert(run(t, ev.drop_first()) == (t, Seq::<ActionView>::empty()));
        assert(acts =~= seq![ActionView::Finish(done(s))]);
        assert(acts.drop_first() =~= Seq::<ActionView>::empty());
        assert(file_bytes(acts.drop_first()) == Seq::<u8>::empty());
        assert(stream_bytes(acts.drop_first()) == Seq::<u8>::empty());
        assert(file_bytes(acts) =~= Seq::<u8>::empty());
        assert(stream_bytes(acts) =~= Seq::<u8>::empty());
        assert(flatten(chunks) == Seq::<u8>::empty());
    } else {
        let c = chunks[0];
        assert(chunks[0].len() > 0);
        let rest = chunks.drop_first();
        assert(all_nonempty(rest)) by {
            assert forall|i: int| 0 <= i < rest.len() implies #[trigger] rest[i].len() > 0 by {
                assert(rest[i] == chunks[i + 1]);
            }
        }
        lemma_receive_copies(s, rest);
        let head = seq![EventView::Received(c), EventView::Completed];
        assert(ev =~= head + stream_feed(rest));
        lemma_run_append(s, head, stream_feed(rest));
        assert(head.drop_first() =~= seq![EventView::Completed]);
        assert(head.drop_first().drop_first() =~= Seq::<EventView>::empty());
        let s1 = SessionView { phase: Phase::Storing, ..s };
        assert(head[0] == EventView::Received(c));
        assert(next(s, head[0]) == (s1, ActionView::WriteFile(c)));
        assert(head.drop_first()[0] == EventView::Completed);
        assert(next(s1, EventView::Completed) == (s, ActionView::ReadStream));
        assert(run(s, Seq::<EventView>::empty()) == (s, Seq::<ActionView>::empty()));
        assert(run(s1, head.drop_first()) == (s, seq![ActionView::ReadStream] + Seq::<ActionView>::empty()));
        assert(run(s, head).0 == s);
        let ha = run(s, head).1;
        assert(ha =~= seq![ActionView::WriteFile(c), ActionView::ReadStream]);
        let ta = run(s, stream_feed(rest)).1;
        lemma_file_bytes_append(ha, ta);
        lemma_stream_bytes_append(ha, ta);
        assert(ha.drop_first() =~= seq![ActionView::ReadStream]);
        assert(ha.drop_first().drop_first() =~= Seq::<ActionView>::empty());
        assert(ha[0] == ActionView::WriteFile(c));
        assert(ha.drop_first()[0] == ActionView::ReadStream);
        assert(file_bytes(ha.drop_first().drop_first()) == Seq::<u8>::empty());
        assert(stream_bytes(ha.drop_first().drop_first()) == Seq::<u8>::empty());
        assert(file_bytes(ha.drop_first()) =~= Seq::<u8>::empty());
        assert(stream_bytes(ha.drop_first()) =~= Seq::<u8>::empty());
        assert(file_bytes(ha) =~= c);
        assert(stream_bytes(ha) =~= Seq::<u8>::empty());
        assert(flatten(chunks) == c + flatten(rest));
        assert(stream_bytes(ha) + stream_bytes(ta) =~= Seq::<u8>::empty());
        assert(ta.len() > 0);
        assert(last_action(ha + ta) == last_action(ta));
    }
}

/// Copying from the file to the connection, whatever the chunks' sizes:
/// each chunk is sent once, in order, and the session ends at end of file.
pub proof fn lemma_send_copies(s: SessionView, chunks: Seq<Seq<u8>>)
    requires
        s.phase == Phase::Loading,
        all_nonempty(chunks),
    ensures
        run(s, file_feed(chunks)).0 == (SessionView { phase: Phase::Finished, ..s }),
        stream_bytes(run(s, file_feed(chunks)).1) == flatten(chunks),
        file_bytes(run(s, file_feed(chunks)).1) == Seq::<u8>::empty(),
        last_action(run(s, file_feed(chunks)).1) == ActionView::Finish(done(s)),
    decreases chunks.len(),
{
    let ev = file_feed(chunks);
    if chunks.len() == 0 {
        let acts = run(s, ev).1;
        assert(ev[0] == EventView::Loaded(Seq::empty()));
        assert(ev.drop_first() =~= Seq::<EventView>::empty());
        let t = SessionView { phase: Phase::Finished, ..s };
        assert(next(s, ev[0]) == (t, ActionView::Finish(done(s))));
        assert(run(t, ev.drop_first()) == (t, Seq::<ActionView>::empty()));
        assert(acts =~= seq![ActionView::Finish(done(s))]);
        assert(acts.drop_first() =~= Seq::<ActionView>::empty());
        assert(file_bytes(acts.drop_first()) == Seq::<u8>::empty());
        assert(stream_bytes(acts.drop_first()) == Seq::<u8>::empty());
        assert(file_bytes(acts) =~= Seq::<u8>::empty());
        assert(stream_bytes(acts) =~= Seq::<u8>::empty());
        assert(flatten(chunks) == Seq::<u8>::empty());
    } else {
        let c = chunks[0];
        assert(chunks[0].len() > 0);
        let rest = chunks.drop_first();
        assert(all_nonempty(rest)) by {
            assert forall|i: int| 0 <= i < rest.len() implies #[trigger] rest[i].len() > 0 by {
                assert(rest[i] == chunks[i + 1]);
            }
        }
        lemma_send_copies(s, rest);
        let head = seq![EventView::Loaded(c), EventView::Completed];
        assert(ev =~= head + file_feed(rest));
        lemma_run_append(s, head, file_feed(rest));
        assert(head.drop_first() =~= seq![EventView::Completed]);
        assert(head.drop_first().drop_first() =~= Seq::<EventView>::empty());
        let s1 = SessionView { phase: Phase::Sending, ..s };
        assert(head[0] == EventView::Loaded(c));
        assert(next(s, head[0]) == (s1, ActionView::WriteStream(c)));
        assert(head.drop_first()[0] == EventView::Completed);
        assert(next(s1, EventView::Completed) == (s, ActionView::ReadFile));
        assert(run(s, Seq::<EventView>::empty()) == (s, Seq::<ActionView>::empty()));
        assert(run(s1, head.drop_first()) == (s, seq![ActionView::ReadFile] + Seq::<ActionView>::empty()));
        assert(run(s, head).0 == s);
        let ha = run(s, head).1;
        assert(ha =~= seq![ActionView::WriteStream(c), ActionView::ReadFile]);
        let ta = run(s, file_feed(rest)).1;
        lemma_file_bytes_append(ha, ta);
        lemma_stream_bytes_append(ha, ta);
        assert(ha.drop_first() =~= seq![ActionView::ReadFile]);
        assert(ha.drop_first().drop_first() =~= Seq::<ActionView>::empty());
        assert(ha[0] == ActionView::WriteStream(c));
        assert(ha.drop_first()[0] == ActionView::ReadFile);
        assert(stream_bytes(ha.drop_first().drop_first()) == Seq::<u8>::empty());
        assert(file_bytes(ha.drop_first().drop_first()) == Seq::<u8>::empty());
        assert(stream_bytes(ha.drop_first()) =~= Seq::<u8>::empty());
        assert(file_bytes(ha.drop_first()) =~= Seq::<u8>::empty());
        assert(stream_bytes(ha) =~= c);
        assert(file_bytes(ha) =~= Seq::<u8>::empty());
        assert(flatten(chunks) == c + flatten(rest));
        assert(file_bytes(ha) + file_bytes(ta) =~= Seq::<u8>::empty());
        assert(ta.len() > 0);
        assert(last_action(ha + ta) == last_action(ta));
    }
}

} // verus!

verus! {

/// A client that uploads `name`, whose file reads as `chunks`.
pub open spec fn client_upload_events(chunks: Seq<Seq<u8>>) -> Seq<EventView> {
    seq![
        EventView::Started,
        EventView::Checked(true),
        EventView::Completed,
        EventView::Completed,
        EventView::Completed,
    ] + file_feed(chunks)
}

/// An upload sends the request line and then the file, chunk boundaries
/// aside, and touches no local file.
#[verifier::rlimit(60)]
pub proof fn client_upload_sends_file(name: Seq<char>, chunks: Seq<Seq<u8>>)
    requires
        all_nonempty(chunks),
    ensures
        ({
            let acts = run(new_client(Direction::Upload, name), client_upload_events(chunks)).1;
            &&& stream_bytes(acts) == request_bytes(Direction::Upload, name) + flatten(chunks)
            &&& file_bytes(acts) == Seq::<u8>::empty()
            &&& last_action(acts) == ActionView::Finish(OutcomeView::Uploaded(name))
        }),
{
    let s0 = new_client(Direction::Upload, name);
    let s5 = SessionView { phase: Phase::Loading, ..s0 };
    let pe = seq![
        EventView::Started,
        EventView::Checked(true),
        EventView::Completed,
        EventView::Completed,
        EventView::Completed,
    ];
    lemma_run_append(s0, pe, file_feed(chunks));
    reveal_with_fuel(run, 6);
    reveal_with_fuel(file_bytes, 6);
    reveal_with_fuel(stream_bytes, 6);
    assert(pe.drop_first().drop_first().drop_first().drop_first().drop_first() =~= Seq::<EventView>::empty());
    assert(run(s0, pe).0 == s5);
    let pa = run(s0, pe).1;
    lemma_send_copies(s5, chunks);
    let ta = run(s5, file_feed(chunks)).1;
    lemma_stream_bytes_append(pa, ta);
    lemma_file_bytes_append(pa, ta);
    assert(stream_bytes(pa) =~= request_bytes(Direction::Upload, name));
    assert(file_bytes(pa) =~= Seq::<u8>::empty());
    assert(last_action(pa + ta) == last_action(ta));
}

} // verus!

verus! {

/// A server whose first read is `first`, an upload command, and whose
/// later reads give `chunks` before the client closes.
pub open spec fn server_upload_events(first: Seq<u8>, chunks: Seq<Seq<u8>>) -> Seq<EventView> {
    let start = seq![EventView::Started, EventView::Received(first), EventView::Completed];
    if after_line(first).len() > 0 {
        start + seq![EventView::Completed] + stream_feed(chunks)
    } else {
        start + stream_feed(chunks)
    }
}

/// On an upload the server stores what followed the command line in the
/// first read and then every later read, in order, under the name the
/// command gave.
#[verifier::rlimit(60)]
pub proof fn server_upload_stores_payload(first: Seq<u8>, chunks: Seq<Seq<u8>>)
    requires
        all_nonempty(chunks),
        command_of(text_of(first_line(first))) is Upload,
    ensures
        ({
            let n = command_of(text_of(first_line(first)))->Upload_0;
            let acts = run(new_server(), server_upload_events(first, chunks)).1;
            &&& acts[1] == ActionView::CreateFile(n)
            &&& file_bytes(acts) == after_line(first) + flatten(chunks)
            &&& stream_bytes(acts) == Seq::<u8>::empty()
            &&& last_action(acts) == ActionView::Finish(OutcomeView::Uploaded(n))
        }),
{
    let n = command_of(text_of(first_line(first)))->Upload_0;
    let s0 = new_server();
    let p = after_line(first);
    let sr = SessionView {
        dir: Direction::Upload,
        name: n,
        phase: Phase::Receiving,
        pending: Seq::empty(),
        ..s0
    };
    let pe = if p.len() > 0 {
        seq![
            EventView::Started,
            EventView::Received(first),
            EventView::Completed,
            EventView::Completed,
        ]
    } else {
        seq![EventView::Started, EventView::Received(first), EventView::Completed]
    };
    assert(server_upload_events(first, chunks) =~= pe + stream_feed(chunks));
    lemma_run_append(s0, pe, stream_feed(chunks));
    reveal_with_fuel(run, 5);
    reveal_with_fuel(file_bytes, 5);
    reveal_with_fuel(stream_bytes, 5);
    let pa = run(s0, pe).1;
    if p.len() > 0 {
        assert(pe.drop_first().drop_first().drop_first().drop_first() =~= Seq::<EventView>::empty());
        assert(run(s0, pe).0 =~= sr);
        assert(file_bytes(pa) =~= p);
    } else {
        assert(pe.drop_first().drop_first().drop_first() =~= Seq::<EventView>::empty());
        assert(p =~= Seq::<u8>::empty());
        assert(run(s0, pe).0 =~= sr);
        assert(file_bytes(pa) =~= p);
    }
    lemma_receive_copies(sr, chunks);
    let ta = run(sr, stream_feed(chunks)).1;
    lemma_stream_bytes_append(pa, ta);
    lemma_file_bytes_append(pa, ta);
    assert(file_bytes(pa) =~= p);
    assert(stream_bytes(pa) =~= Seq::<u8>::empty());
    assert(stream_bytes(pa) + stream_bytes(ta) =~= Seq::<u8>::empty());
    assert(last_action(pa + ta) == last_action(ta));
    assert((pa + ta)[1] == pa[1]);
}

/// A server whose first read is `first`, a download command, and whose
/// file of that name reads as `chunks`.
pub open spec fn server_download_events(first: Seq<u8>, chunks: Seq<Seq<u8>>) -> Seq<EventView> {
    seq![
        EventView::Started,
        EventView::Received(first),
        EventView::Checked(true),
        EventView::Completed,
    ] + file_feed(chunks)
}

/// On a download of a file that exists the server sends the file, chunk
/// boundaries aside, and nothing else.
#[verifier::rlimit(60)]
pub proof fn server_download_sends_file(first: Seq<u8>, chunks: Seq<Seq<u8>>)
    requires
        all_nonempty(chunks),
        command_of(text_of(first_line(first))) is Download,
    ensures
        ({
            let n = command_of(text_of(first_line(first)))->Download_0;
            let acts = run(new_server(), server_download_events(first, chunks)).1;
            &&& acts[2] == ActionView::OpenFile(n)
            &&& stream_bytes(acts) == flatten(chunks)
            &&& file_bytes(acts) == Seq::<u8>::empty()
            &&& last_action(acts) == ActionView::Finish(OutcomeView::Downloaded(n))
        }),
{
    let n = command_of(text_of(first_line(first)))->Download_0;
    let s0 = new_server();
    let sl = SessionView { dir: Direction::Download, name: n, phase: Phase::Loading, ..s0 };
    let pe = seq![
        EventView::Started,
        EventView::Received(first),
        EventView::Checked(true),
        EventView::Completed,
    ];
    lemma_run_append(s0, pe, file_feed(chunks));
    reveal_with_fuel(run, 5);
    reveal_with_fuel(file_bytes, 5);
    reveal_with_fuel(stream_bytes, 5);
    assert(pe.drop_first().drop_first().drop_first().drop_first() =~= Seq::<EventView>::empty());
    assert(run(s0, pe).0 =~= sl);
    let pa = run(s0, pe).1;
    lemma_send_copies(sl, chunks);
    let ta = run(sl, file_feed(chunks)).1;
    lemma_stream_bytes_append(pa, ta);
    lemma_file_bytes_append(pa, ta);
    assert(file_bytes(pa) =~= Seq::<u8>::empty());
    assert(stream_bytes(pa) =~= Seq::<u8>::empty());
    assert(file_bytes(pa) + file_bytes(ta) =~= Seq::<u8>::empty());
    assert(stream_bytes(pa) + stream_bytes(ta) =~= stream_bytes(ta));
    assert(last_action(pa + ta) == last_action(ta));
    assert((pa + ta)[2] == pa[2]);
}

/// A client that downloads and then hears `chunks` before the server closes.
pub open spec fn client_download_events(chunks: Seq<Seq<u8>>) -> Seq<EventView> {
    seq![EventView::Started, EventView::Completed, EventView::Completed, EventView::Completed]
        + stream_feed(chunks)
}

/// A download sends the request line, creates the local file and stores
/// everything the server sends, in order.
#[verifier::rlimit(60)]
pub proof fn client_download_stores_reply(name: Seq<char>, chunks: Seq<Seq<u8>>)
    requires
        all_nonempty(chunks),
    ensures
        ({
            let acts = run(new_client(Direction::Download, name), client_download_events(chunks)).1;
            &&& acts[2] == ActionView::CreateFile(name)
            &&& stream_bytes(acts) == request_bytes(Direction::Download, name)
            &&& file_bytes(acts) == flatten(chunks)
            &&& last_action(acts) == ActionView::Finish(OutcomeView::Downloaded(name))
        }),
{
    let s0 = new_client(Direction::Download, name);
    let sr = SessionView { phase: Phase::Receiving, ..s0 };
    let pe = seq![
        EventView::Started,
        EventView::Completed,
        EventView::Completed,
        EventView::Completed,
    ];
    lemma_run_append(s0, pe, stream_feed(chunks));
    reveal_with_fuel(run, 5);
    reveal_with_fuel(file_bytes, 5);
    reveal_with_fuel(stream_bytes, 5);
    assert(pe.drop_first().drop_first().drop_first().drop_first() =~= Seq::<EventView>::empty());
    assert(run(s0, pe).0 =~= sr);
    let pa = run(s0, pe).1;
    lemma_receive_copies(sr, chunks);
    let ta = run(sr, stream_feed(chunks)).1;
    lemma_stream_bytes_append(pa, ta);
    lemma_file_bytes_append(pa, ta);
    assert(file_bytes(pa) =~= Seq::<u8>::empty());
    assert(stream_bytes(pa) =~= request_bytes(Direction::Download, name));
    assert(file_bytes(pa) + file_bytes(ta) =~= file_bytes(ta));
    assert(stream_bytes(pa) + stream_bytes(ta) =~= stream_bytes(pa));
    assert(last_action(pa + ta) == last_action(ta));
    assert((pa + ta)[2] == pa[2]);
}

/// Asking for a file the server lacks: the server sends nothing and reports
/// it missing; the client, which then hears nothing, is left with an empty
/// file of that name.
pub proof fn missing_file_download(first: Seq<u8>, name: Seq<char>)
    requires
        command_of(text_of(first_line(first))) is Download,
    ensures
        ({
            let n = command_of(text_of(first_line(first)))->Download_0;
            let server = run(
                new_server(),
                seq![EventView::Started, EventView::Received(first), EventView::Checked(false)],
            ).1;
            let client = run(
                new_client(Direction::Download, name),
                client_download_events(Seq::empty()),
            ).1;
            &&& stream_bytes(server) == Seq::<u8>::empty()
            &&& last_action(server) == ActionView::Finish(OutcomeView::NotFound(n))
            &&& client[2] == ActionView::CreateFile(name)
            &&& file_bytes(client) == Seq::<u8>::empty()
        }),
{
    let e = seq![EventView::Started, EventView::Received(first), EventView::Checked(false)];
    reveal_with_fuel(run, 4);
    reveal_with_fuel(stream_bytes, 4);
    assert(e.drop_first().drop_first().drop_first() =~= Seq::<EventView>::empty());
    let server = run(new_server(), e).1;
    assert(server.drop_first().drop_first().drop_first() =~= Seq::<ActionView>::empty());
    assert(stream_bytes(server) =~= Seq::<u8>::empty());
    client_download_stores_reply(name, Seq::empty());
    assert(all_nonempty(Seq::<Seq<u8>>::empty()));
}

/// Downloading a file twice, with no upload between, gives the same bytes
/// both times, however either side's reads are split.
pub proof fn download_is_repeatable(
    first: Seq<u8>,
    name: Seq<char>,
    load1: Seq<Seq<u8>>,
    load2: Seq<Seq<u8>>,
    recv1: Seq<Seq<u8>>,
    recv2: Seq<Seq<u8>>,
)
    requires
        command_of(text_of(first_line(first))) is Download,
        all_nonempty(load1),
        all_nonempty(load2),
        all_nonempty(recv1),
        all_nonempty(recv2),
        flatten(load1) == flatten(load2),
        flatten(recv1) == stream_bytes(run(new_server(), server_download_events(first, load1)).1),
        flatten(recv2) == stream_bytes(run(new_server(), server_download_events(first, load2)).1),
    ensures
        file_bytes(run(new_client(Direction::Download, name), client_download_events(recv1)).1)
            == file_bytes(
            run(new_client(Direction::Download, name), client_download_events(recv2)).1,
        ),
{
    server_download_sends_file(first, load1);
    server_download_sends_file(first, load2);
    client_download_stores_reply(name, recv1);
    client_download_stores_reply(name, recv2);
}

} // verus!

verus! {

/// Uploading a file under a plain name and then downloading that name gives
/// back the client's file byte for byte, the empty file included, however
/// either side's reads are split, so long as each of the server's first reads
/// holds the whole request line. The server stores the file under that name
/// and sends the file of that name.
pub proof fn round_trip(
    name: Seq<char>,
    up: Seq<Seq<u8>>,
    p: Seq<u8>,
    recv: Seq<Seq<u8>>,
    load: Seq<Seq<u8>>,
    q: Seq<u8>,
    down: Seq<Seq<u8>>,
)
    requires
        plain_name(name),
        all_nonempty(up),
        all_nonempty(recv),
        all_nonempty(load),
        all_nonempty(down),
        request_bytes(Direction::Upload, name) + p + flatten(recv) == stream_bytes(
            run(new_client(Direction::Upload, name), client_upload_events(up)).1,
        ),
        flatten(load) == file_bytes(
            run(
                new_server(),
                server_upload_events(request_bytes(Direction::Upload, name) + p, recv),
            ).1,
        ),
        flatten(down) == stream_bytes(
            run(
                new_server(),
                server_download_events(request_bytes(Direction::Download, name) + q, load),
            ).1,
        ),
    ensures
        run(
            new_server(),
            server_upload_events(request_bytes(Direction::Upload, name) + p, recv),
        ).1[1] == ActionView::CreateFile(name),
        run(
            new_server(),
            server_download_events(request_bytes(Direction::Download, name) + q, load),
        ).1[2] == ActionView::OpenFile(name),
        file_bytes(run(new_client(Direction::Download, name), client_download_events(down)).1)
            == flatten(up),
{
    let ru = request_bytes(Direction::Upload, name);
    let rd = request_bytes(Direction::Download, name);
    client_upload_sends_file(name, up);
    let a = ru + p + flatten(recv);
    let b = ru + flatten(up);
    assert(a.subrange(ru.len() as int, a.len() as int) =~= p + flatten(recv));
    assert(b.subrange(ru.len() as int, b.len() as int) =~= flatten(up));
    assert(p + flatten(recv) == flatten(up));
    request_is_read_back(Direction::Upload, name, p);
    server_upload_stores_payload(ru + p, recv);
    request_is_read_back(Direction::Download, name, q);
    server_download_sends_file(rd + q, load);
    client_download_stores_reply(name, down);
}

} // verus!

verus! {

/// How many entries of `order` are `side`.
pub open spec fn count(order: Seq<bool>, side: bool) -> nat
    decreases order.len(),
{
    if order.len() == 0 {
        0
    } else {
        (if order[0] == side {
            1nat
        } else {
            0nat
        }) + count(order.drop_first(), side)
    }
}

/// Two sessions driven side by side: at each entry of `order` the first
/// session takes its next event if the entry is true, the second otherwise.
/// Gives both final states and the actions each asked for.
pub open spec fn run_both(
    a: SessionView,
    b: SessionView,
    ea: Seq<EventView>,
    eb: Seq<EventView>,
    order: Seq<bool>,
) -> (SessionView, Seq<ActionView>, SessionView, Seq<ActionView>)
    decreases order.len(),
{
    if order.len() == 0 {
        (a, Seq::empty(), b, Seq::empty())
    } else if order[0] && ea.len() > 0 {
        let (a1, x) = next(a, ea[0]);
        let r = run_both(a1, b, ea.drop_first(), eb, order.drop_first());
        (r.0, seq![x] + r.1, r.2, r.3)
    } else if !order[0] && eb.len() > 0 {
        let (b1, y) = next(b, eb[0]);
        let r = run_both(a, b1, ea, eb.drop_first(), order.drop_first());
        (r.0, r.1, r.2, seq![y] + r.3)
    } else {
        run_both(a, b, ea, eb, order.drop_first())
    }
}

/// However the steps of two sessions interleave, each ends as it would have
/// alone and asks for the same actions: sessions share nothing.
pub proof fn interleaving_changes_nothing(
    a: SessionView,
    b: SessionView,
    ea: Seq<EventView>,
    eb: Seq<EventView>,
    order: Seq<bool>,
)
    requires
        count(order, true) == ea.len(),
        count(order, false) == eb.len(),
    ensures
        run_both(a, b, ea, eb, order) == (run(a, ea).0, run(a, ea).1, run(b, eb).0, run(b, eb).1),
    decreases order.len(),
{
    if order.len() == 0 {
    } else if order[0] {
        interleaving_changes_nothing(next(a, ea[0]).0, b, ea.drop_first(), eb, order.drop_first());
    } else {
        interleaving_changes_nothing(a, next(b, eb[0]).0, ea, eb.drop_first(), order.drop_first());
    }
}

/// Two uploads served at once, however their steps interleave, each store
/// their own payload under their own name.
pub proof fn concurrent_uploads_stay_apart(
    first_a: Seq<u8>,
    chunks_a: Seq<Seq<u8>>,
    first_b: Seq<u8>,
    chunks_b: Seq<Seq<u8>>,
    order: Seq<bool>,
)
    requires
        command_of(text_of(first_line(first_a))) is Upload,
        command_of(text_of(first_line(first_b))) is Upload,
        all_nonempty(chunks_a),
        all_nonempty(chunks_b),
        count(order, true) == server_upload_events(first_a, chunks_a).len(),
        count(order, false) == server_upload_events(first_b, chunks_b).len(),
    ensures
        ({
            let r = run_both(
                new_server(),
                new_server(),
                server_upload_events(first_a, chunks_a),
                server_upload_events(first_b, chunks_b),
                order,
            );
            &&& r.1[1] == ActionView::CreateFile(command_of(text_of(first_line(first_a)))->Upload_0)
            &&& file_bytes(r.1) == after_line(first_a) + flatten(chunks_a)
            &&& r.3[1] == ActionView::CreateFile(command_of(text_of(first_line(first_b)))->Upload_0)
            &&& file_bytes(r.3) == after_line(first_b) + flatten(chunks_b)
        }),
{
    interleaving_changes_nothing(
        new_server(),
        new_server(),
        server_upload_events(first_a, chunks_a),
        server_upload_events(first_b, chunks_b),
        order,
    );
    server_upload_stores_payload(first_a, chunks_a);
    server_upload_stores_payload(first_b, chunks_b);
}

} // verus!
