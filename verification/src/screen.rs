//! What the window shows of the tunnel.

use vstd::prelude::*;
use vstd::string::*;
use vstd::utf8::*;

use crate::peer::{label, lemma_label_digits};
use crate::ticket::{carried, law_ticket_carries_the_address, ticket_text};
use crate::text::{
    chars_of, decimal, decimal_of, find, is_digit, lemma_decimal, lemma_find, lemma_find_bounds,
    lines, lines_of, string_of, views,
};
use crate::tunnel::{
    after, joined, left, lemma_without, without, PeerChange, Status, StatusModel,
};

verus! {

/// A line of the message that a connection is up.
pub enum MessageLine {
    /// A little space.
    Gap,
    /// A line of text.
    Text(String),
}

/// What the window shows.
pub enum Screen {
    /// The form that starts a tunnel, below it what went wrong the last time.
    Form { error: Option<String> },
    /// That something is going on.
    Waiting { message: String },
    /// The ticket to hand out.
    HostTicket { ticket: String },
    /// That a connection is up.
    Connected { lines: Vec<MessageLine> },
}

/// How many bytes of a peer's name are shown.
pub const PEER_NAME_BYTES: usize = 16;

/// Where a peer's name is cut, in bytes.
pub open spec fn cut(peer: Seq<char>) -> int {
    let n = encode_utf8(peer).len() as int;
    if n < PEER_NAME_BYTES {
        n
    } else {
        PEER_NAME_BYTES as int
    }
}

/// Whether a peer's name can be cut: the cut goes through no character.
pub open spec fn can_cut(peer: Seq<char>) -> bool {
    is_char_boundary(encode_utf8(peer), cut(peer))
}

/// As much of a peer's name as is shown.
pub open spec fn shown(peer: Seq<char>) -> Seq<char> {
    decode_utf8(encode_utf8(peer).take(cut(peer)))
}

/// Where a peer's name is cut, in bytes.
fn cut_length(peer: &str) -> (r: usize)
    ensures
        r == cut(peer@),
{
    let n: usize = peer.as_bytes().len();
    if n < PEER_NAME_BYTES {
        n
    } else {
        PEER_NAME_BYTES
    }
}

/// Cuts a peer's name.
fn cut_name(peer: &String) -> (r: String)
    requires
        can_cut(peer@),
    ensures
        r@ == shown(peer@),
{
    let text = peer.as_str();
    let k: usize = cut_length(text);
    let (front, _) = text.split_at(k);
    proof {
        assert(encode_utf8(peer@).take(k as int) =~= encode_utf8(front@));
        encode_utf8_decode_utf8(front@);
    }
    front.to_owned()
}

/// The entries of the list of peers, one per line.
pub open spec fn peer_list(peers: Seq<Seq<char>>) -> Seq<char>
    decreases peers.len(),
{
    if peers.len() == 0 {
        Seq::empty()
    } else if peers.len() == 1 {
        "• "@ + shown(peers[0])
    } else {
        peer_list(peers.drop_last()) + "\n"@ + ("• "@ + shown(peers.last()))
    }
}

/// The message that a host shows to whom peers are connected.
pub open spec fn host_message(peers: Seq<Seq<char>>) -> Seq<char> {
    "Друзья подключены ("@ + decimal(peers.len()) + ")!\n\n"@ + peer_list(peers)
}

/// The message that the host was reached; clients connect to `local_port`.
pub open spec fn join_message(local_port: Seq<char>) -> Seq<char> {
    "Подключено!\nЛокальный порт: "@ + local_port
}

/// Writes the entries of the list of peers.
fn write_peer_list(peers: &Vec<String>) -> (r: String)
    requires
        forall|i: int| 0 <= i < peers@.len() ==> can_cut(#[trigger] peers.deep_view()[i]),
    ensures
        r@ == peer_list(peers.deep_view()),
{
    let ghost model = peers.deep_view();
    let mut out = String::new();
    for i in 0..peers.len()
        invariant
            model == peers.deep_view(),
            forall|j: int| 0 <= j < model.len() ==> can_cut(#[trigger] model[j]),
            out@ == peer_list(model.take(i as int)),
    {
        assert(can_cut(model[i as int]));
        let name = cut_name(&peers[i]);
        if i > 0 {
            out.append("\n");
        }
        let entry = "• ".to_owned().concat(name.as_str());
        out.append(entry.as_str());
        proof {
            let now = model.take(i + 1);
            assert(now.drop_last() =~= model.take(i as int));
            assert(now.last() == peers@[i as int]@);
            if i == 0 {
                assert(now[0] == peers@[0]@);
            }
            assert(out@ =~= peer_list(now));
        }
    }
    assert(model.take(model.len() as int) =~= model);
    out
}

/// Whether `r` is the lines of `message`, with a gap for each empty one.
pub open spec fn are_lines_of(r: Seq<MessageLine>, message: Seq<char>) -> bool {
    &&& r.len() == lines(message).len()
    &&& forall|i: int|
        0 <= i < r.len() ==> (match #[trigger] r[i] {
            MessageLine::Gap => lines(message)[i].len() == 0,
            MessageLine::Text(text) => lines(message)[i].len() > 0 && text@ == lines(message)[i],
        })
}

/// The lines of a message.
pub fn message_lines(message: &str) -> (r: Vec<MessageLine>)
    ensures
        are_lines_of(r@, message@),
{
    let cs = chars_of(message);
    let all = lines_of(cs.as_slice());
    let ghost model = lines(message@);
    let mut out: Vec<MessageLine> = Vec::new();
    for i in 0..all.len()
        invariant
            model == lines(message@),
            model == views(all@),
            out@.len() == i,
            forall|j: int|
                0 <= j < i ==> (match #[trigger] out@[j] {
                    MessageLine::Gap => model[j].len() == 0,
                    MessageLine::Text(text) => model[j].len() > 0 && text@ == model[j],
                }),
    {
        assert(model[i as int] == all@[i as int]@);
        if all[i].len() == 0 {
            out.push(MessageLine::Gap);
        } else {
            out.push(MessageLine::Text(string_of(all[i].as_slice())));
        }
    }
    out
}

/// Whether `screen` is what is shown of a tunnel with `status`, where the user entered
/// `local_port`.
pub open spec fn shows(screen: Screen, status: StatusModel, local_port: Seq<char>) -> bool {
    match status {
        StatusModel::Idle => screen matches Screen::Form { error: None },
        StatusModel::Error(message) => screen matches Screen::Form { error: Some(error) } && error@
            == "✗  "@ + message,
        StatusModel::HostStarting => screen matches Screen::Waiting { message } && message@
            == "Запуск…"@,
        StatusModel::HostWaiting { ticket } => screen matches Screen::HostTicket { ticket: shown }
            && shown@ == ticket,
        StatusModel::HostConnected { ticket: _, peers } => screen matches Screen::Connected {
            lines,
        } && are_lines_of(lines@, host_message(peers)),
        StatusModel::JoinConnecting => screen matches Screen::Waiting { message } && message@
            == "Подключение к хосту…"@,
        StatusModel::JoinConnected => screen matches Screen::Connected { lines } && are_lines_of(
            lines@,
            join_message(local_port),
        ),
    }
}

/// Whether every peer's name in `status` can be cut.
pub open spec fn can_show(status: StatusModel) -> bool {
    status matches StatusModel::HostConnected { ticket: _, peers } ==> forall|i: int|
        0 <= i < peers.len() ==> can_cut(#[trigger] peers[i])
}

/// Tests whether every peer's name in `status` can be cut.
pub fn can_be_shown(status: &Status) -> (r: bool)
    ensures
        r == can_show(status@),
{
    match status {
        Status::HostConnected { ticket: _, peers } => {
            let ghost model = peers.deep_view();
            assert(status@->HostConnected_peers == model);
            for i in 0..peers.len()
                invariant
                    model == peers.deep_view(),
                    status@ is HostConnected,
                    status@->HostConnected_peers == model,
                    forall|j: int| 0 <= j < i ==> can_cut(#[trigger] model[j]),
            {
                assert(model[i as int] == peers@[i as int]@);
                let text = peers[i].as_str();
                let k: usize = cut_length(text);
                if !text.is_char_boundary(k) {
                    assert(!can_cut(model[i as int]));
                    return false;
                }
            }
            true
        },
        _ => true,
    }
}

/// What is shown of a tunnel with `status`, where the user entered `local_port`.
pub fn screen(status: &Status, local_port: &str) -> (r: Screen)
    requires
        can_show(status@),
    ensures
        shows(r, status@, local_port@),
{
    match status {
        Status::Idle => Screen::Form { error: None },
        Status::Error(message) => Screen::Form {
            error: Some("✗  ".to_owned().concat(message.as_str())),
        },
        Status::HostStarting => Screen::Waiting { message: "Запуск…".to_owned() },
        Status::HostWaiting { ticket } => Screen::HostTicket { ticket: ticket.clone() },
        Status::HostConnected { ticket: _, peers } => {
            proof {
                let model = peers.deep_view();
                assert(status@->HostConnected_peers == model);
                assert forall|i: int| 0 <= i < peers@.len() implies can_cut(
                    #[trigger] peers.deep_view()[i],
                ) by {
                    assert(can_cut(model[i]));
                }
            }
            let count = decimal_of(peers.len() as u64);
            let list = write_peer_list(peers);
            let message = "Друзья подключены (".to_owned().concat(count.as_str()).concat(
                ")!\n\n",
            ).concat(list.as_str());
            Screen::Connected { lines: message_lines(message.as_str()) }
        },
        Status::JoinConnecting => Screen::Waiting { message: "Подключение к хосту…".to_owned() },
        Status::JoinConnected => {
            let message = "Подключено!\nЛокальный порт: ".to_owned().concat(local_port);
            Screen::Connected { lines: message_lines(message.as_str()) }
        },
    }
}

/// Names of ASCII characters can be cut, and are shown up to their sixteenth character.
pub proof fn law_ascii_name_is_shown(peer: Seq<char>)
    requires
        is_ascii_chars(peer),
    ensures
        can_cut(peer),
        peer.len() <= PEER_NAME_BYTES ==> shown(peer) == peer,
        peer.len() >= PEER_NAME_BYTES ==> shown(peer) == peer.take(PEER_NAME_BYTES as int),
{
    let bytes = encode_utf8(peer);
    let k = cut(peer);
    is_ascii_chars_encode_utf8(peer);
    encode_utf8_valid_utf8(peer);
    if k == bytes.len() {
        is_char_boundary_start_end_of_seq(bytes);
        assert(bytes.take(k) =~= bytes);
        encode_utf8_decode_utf8(peer);
        assert(peer.take(k) =~= peer);
    } else {
        let b = bytes[k];
        assert(peer[k] as u8 == b);
        assert(b < 128);
        assert(!is_continuation_byte(b)) by (bit_vector)
            requires
                b < 128,
        ;
        is_char_boundary_iff_not_is_continuation_byte(bytes, k);
        let front = peer.take(k);
        assert(is_ascii_chars(front));
        is_ascii_chars_encode_utf8(front);
        assert forall|i: int| 0 <= i < k implies encode_utf8(front)[i] == bytes[i] by {
            assert(front[i] == peer[i]);
            assert(front[i] as u8 == encode_utf8(front)[i]);
            assert(peer[i] as u8 == bytes[i]);
        }
        assert(encode_utf8(front) =~= bytes.take(k));
        encode_utf8_decode_utf8(front);
    }
}

/// The short name of a peer can be shown, and is shown in full.
pub proof fn law_label_is_shown(id: Seq<u8>)
    ensures
        can_cut(label(id)),
        shown(label(id)) == label(id),
{
    lemma_label_digits(id);
    law_ascii_name_is_shown(label(id));
}

/// What could be shown can be shown after a peer came whose name can be cut.
pub proof fn law_joined_can_be_shown(status: StatusModel, peer: Seq<char>)
    requires
        can_show(status),
        can_cut(peer),
    ensures
        can_show(joined(status, peer)),
{
    let now = joined(status, peer);
    if let StatusModel::HostConnected { ticket: _, peers } = now {
        assert forall|i: int| 0 <= i < peers.len() implies can_cut(#[trigger] peers[i]) by {
            if let StatusModel::HostConnected { ticket: _, peers: before } = status {
                if i < before.len() {
                    assert(can_cut(before[i]));
                }
            }
        }
    }
}

/// What could be shown can be shown after a peer left.
pub proof fn law_left_can_be_shown(status: StatusModel, peer: Seq<char>, ticket: Seq<char>)
    requires
        can_show(status),
    ensures
        can_show(left(status, peer, ticket)),
{
    if let StatusModel::HostConnected { ticket: _, peers } = status {
        let rest = without(peers, peer);
        lemma_without(peers, peer);
        assert forall|i: int| 0 <= i < rest.len() implies can_cut(#[trigger] rest[i]) by {
            assert(rest.contains(rest[i]));
            let k = choose|k: int| 0 <= k < peers.len() && peers[k] == rest[i];
            assert(can_cut(peers[k]));
        }
    }
}

/// Whether every peer that came goes by the short name of a key.
pub open spec fn labelled(changes: Seq<PeerChange>) -> bool {
    forall|i: int|
        0 <= i < changes.len() ==> (#[trigger] changes[i] matches PeerChange::Joined(peer)
            ==> exists|id: Seq<u8>| peer == label(id))
}

/// Whatever came and went, a host whose peers go by their short names can be shown.
pub proof fn law_host_can_always_be_shown(ticket: Seq<char>, changes: Seq<PeerChange>)
    requires
        labelled(changes),
    ensures
        can_show(after(ticket, changes)),
    decreases changes.len(),
{
    if changes.len() > 0 {
        let earlier = changes.drop_last();
        let before = after(ticket, earlier);
        assert forall|i: int| 0 <= i < earlier.len() implies (#[trigger] earlier[i] matches
            PeerChange::Joined(peer) ==> exists|id: Seq<u8>| peer == label(id)) by {
            assert(earlier[i] == changes[i]);
        }
        law_host_can_always_be_shown(ticket, earlier);
        match changes.last() {
            PeerChange::Joined(peer) => {
                assert(changes[changes.len() - 1] == PeerChange::Joined(peer));
                let id = choose|id: Seq<u8>| peer == label(id);
                law_label_is_shown(id);
                law_joined_can_be_shown(before, peer);
            },
            PeerChange::Left(peer) => {
                law_left_can_be_shown(before, peer, ticket);
            },
        }
    }
}

/// A name that stands on one line.
pub open spec fn on_one_line(s: Seq<char>) -> bool {
    forall|i: int| 0 <= i < s.len() ==> #[trigger] s[i] != '\n' && s[i] != '\r'
}

/// What the host's message says, line by line: a heading with the number of peers, a gap, and one
/// line for each peer.
pub open spec fn host_lines(peers: Seq<Seq<char>>) -> Seq<Seq<char>> {
    seq!["Друзья подключены ("@ + decimal(peers.len()) + ")!"@, Seq::empty()] + peers.map_values(
        |p: Seq<char>| "• "@ + shown(p),
    )
}

/// A text is its first line, which a line feed ends, and the lines of what follows.
proof fn lemma_first_line(first: Seq<char>, rest: Seq<char>)
    requires
        on_one_line(first),
    ensures
        lines(first + seq!['\n'] + rest) == seq![first] + lines(rest),
{
    let all = first + seq!['\n'] + rest;
    let k = first.len() as int;
    lemma_find(all, '\n', k);
    assert(all.take(k) =~= first);
    assert(all.skip(k + 1) =~= rest);
    if k > 0 {
        assert(first[k - 1] != '\r');
    }
}

/// A text without line feeds that is not empty is one line.
proof fn lemma_one_line(s: Seq<char>)
    requires
        on_one_line(s),
        s.len() > 0,
    ensures
        lines(s) == seq![s],
{
    lemma_find(s, '\n', s.len() as int);
}

/// A line feed behind a text, and then one more line, add that line to the lines of the text.
proof fn lemma_lines_then(front: Seq<char>, last: Seq<char>)
    requires
        on_one_line(last),
        last.len() > 0,
        front.len() > 0,
        front.last() != '\n',
        front.last() != '\r',
    ensures
        lines(front + seq!['\n'] + last) == lines(front).push(last),
    decreases front.len(),
{
    let all = front + seq!['\n'] + last;
    let k = find(front, '\n');
    lemma_find_bounds(front, '\n');
    if k < front.len() {
        let tail = front.skip(k + 1);
        assert(k != front.len() - 1);
        assert(tail.last() == front.last());
        lemma_find(all, '\n', k);
        assert(all.take(k) =~= front.take(k));
        assert(all.skip(k + 1) =~= tail + seq!['\n'] + last);
        lemma_lines_then(tail, last);
        assert(lines(all) =~= lines(front).push(last));
    } else {
        lemma_find(all, '\n', k);
        assert(all.take(k) =~= front);
        assert(all.skip(k + 1) =~= last);
        lemma_one_line(last);
        assert(lines(all) =~= seq![front].push(last));
    }
}

/// The list of peers has one line for each.
proof fn lemma_peer_list_lines(peers: Seq<Seq<char>>)
    requires
        forall|i: int| 0 <= i < peers.len() ==> on_one_line(shown(#[trigger] peers[i])),
    ensures
        lines(peer_list(peers)) == peers.map_values(|p: Seq<char>| "• "@ + shown(p)),
        peers.len() > 0 ==> peer_list(peers).len() > 0 && peer_list(peers).last() != '\n'
            && peer_list(peers).last() != '\r',
    decreases peers.len(),
{
    reveal_strlit("• ");
    reveal_strlit("\n");
    let entries = peers.map_values(|p: Seq<char>| "• "@ + shown(p));
    if peers.len() == 0 {
        assert(lines(peer_list(peers)) =~= entries);
    } else {
        let last = "• "@ + shown(peers.last());
        assert(on_one_line(shown(peers[peers.len() - 1])));
        assert(on_one_line(last));
        if peers.len() == 1 {
            lemma_one_line(last);
            assert(seq![last] =~= entries);
        } else {
            let init = peers.drop_last();
            lemma_peer_list_lines(init);
            assert("\n"@ =~= seq!['\n']);
            lemma_lines_then(peer_list(init), last);
            assert(peer_list(peers).last() == last.last());
            assert(entries =~= init.map_values(|p: Seq<char>| "• "@ + shown(p)).push(last));
        }
    }
}

/// Where no name has a line break, the host's message is the heading, a gap, and a line for each
/// peer, in the order in which they came.
pub proof fn law_host_message_lists_peers(peers: Seq<Seq<char>>)
    requires
        forall|i: int| 0 <= i < peers.len() ==> on_one_line(shown(#[trigger] peers[i])),
    ensures
        lines(host_message(peers)) == host_lines(peers),
{
    let head = "Друзья подключены ("@ + decimal(peers.len()) + ")!"@;
    let list = peer_list(peers);
    reveal_strlit("Друзья подключены (");
    reveal_strlit(")!");
    reveal_strlit(")!\n\n");
    lemma_decimal(peers.len());
    assert(")!\n\n"@ =~= ")!"@ + seq!['\n'] + (Seq::<char>::empty() + seq!['\n']));
    assert(host_message(peers) =~= head + seq!['\n'] + (Seq::<char>::empty() + seq!['\n'] + list));
    assert(on_one_line(head)) by {
        assert forall|i: int| 0 <= i < head.len() implies #[trigger] head[i] != '\n' && head[i]
            != '\r' by {
            let a = "Друзья подключены ("@;
            let n = decimal(peers.len());
            if a.len() <= i < a.len() + n.len() {
                assert(head[i] == n[i - a.len()]);
                assert(is_digit(n[i - a.len()]));
            }
        }
    }
    lemma_first_line(head, Seq::<char>::empty() + seq!['\n'] + list);
    lemma_first_line(Seq::empty(), list);
    lemma_peer_list_lines(peers);
    assert(lines(host_message(peers)) =~= host_lines(peers));
}

/// The front of a text makes up the front of its bytes, and ends between two characters.
proof fn lemma_front_bytes(peer: Seq<char>, k: int)
    requires
        0 <= k <= peer.len(),
    ensures
        encode_utf8(peer.take(k)).is_prefix_of(encode_utf8(peer)),
        is_char_boundary(encode_utf8(peer), encode_utf8(peer.take(k)).len() as int),
    decreases k,
{
    let bytes = encode_utf8(peer);
    let front = encode_utf8(peer.take(k));
    encode_utf8_valid_utf8(peer);
    if k == 0 {
        assert(peer.take(0) =~= Seq::<char>::empty());
        is_char_boundary_start_end_of_seq(bytes);
    } else {
        let rest = peer.drop_first();
        lemma_front_bytes(rest, k - 1);
        assert(peer.take(k).drop_first() =~= rest.take(k - 1));
        encode_utf8_first_scalar(peer);
        let head = encode_scalar(peer[0] as u32);
        assert(bytes == head + encode_utf8(rest));
        assert(front == head + encode_utf8(rest.take(k - 1)));
        assert(front =~= bytes.take(front.len() as int));
        assert(pop_first_scalar(bytes) =~= encode_utf8(rest));
        assert(is_char_boundary(
            pop_first_scalar(bytes),
            front.len() as int - length_of_first_scalar(bytes),
        ));
    }
}

/// A peer's name is shown up to its sixteenth byte, or in full where it has no more, and can be
/// shown exactly where a character ends there.
pub proof fn law_name_is_cut_between_characters(peer: Seq<char>, k: int)
    requires
        0 <= k <= peer.len(),
    ensures
        encode_utf8(peer.take(k)).len() == 16 ==> can_cut(peer) && shown(peer) == peer.take(k),
        encode_utf8(peer).len() <= 16 ==> can_cut(peer) && shown(peer) == peer,
        can_cut(peer) ==> shown(peer).is_prefix_of(peer),
        can_cut(peer) && encode_utf8(peer).len() > 16 ==> encode_utf8(shown(peer)).len() == 16,
{
    let bytes = encode_utf8(peer);
    encode_utf8_valid_utf8(peer);
    encode_utf8_decode_utf8(peer);
    if encode_utf8(peer.take(k)).len() == 16 {
        lemma_front_bytes(peer, k);
        assert(bytes.len() >= 16);
        assert(bytes.take(cut(peer)) =~= encode_utf8(peer.take(k)));
        encode_utf8_decode_utf8(peer.take(k));
    }
    if bytes.len() <= 16 {
        is_char_boundary_start_end_of_seq(bytes);
        assert(bytes.take(cut(peer)) =~= bytes);
    }
    if can_cut(peer) {
        let c = cut(peer);
        assert(bytes.take(c) =~= bytes.subrange(0, c));
        valid_utf8_split(bytes, c);
        decode_utf8_split(bytes, c);
        decode_utf8_encode_utf8(bytes.subrange(0, c));
        assert(shown(peer) =~= peer.take(shown(peer).len() as int));
    }
}

/// What a waiting host is shown is the ticket that it opened with, character for character and
/// whatever its length: the text that is shown and copied carries the host's bytes.
pub proof fn law_ticket_reaches_the_window(screen: Screen, bytes: Seq<u8>, local_port: Seq<char>)
    requires
        shows(screen, StatusModel::HostWaiting { ticket: ticket_text(bytes) }, local_port),
    ensures
        screen is HostTicket,
        screen->ticket@ == ticket_text(bytes),
        carried(screen->ticket@) == Some(bytes),
{
    law_ticket_carries_the_address(bytes);
}

/// Each status has its own picture: the form where nothing runs, with the error in full where there
/// was one, a word while something starts, the ticket in full while the host waits, and lines of
/// text once a connection is up.
pub proof fn law_screen_tells_the_status(
    screen: Screen,
    status: StatusModel,
    local_port: Seq<char>,
)
    requires
        shows(screen, status, local_port),
    ensures
        screen is Form <==> status is Idle || status is Error,
        status is Idle ==> screen->error is None,
        status matches StatusModel::Error(message) ==> {
            &&& screen->error is Some
            &&& screen->error->0@ == "✗  "@ + message
        },
        screen is Waiting <==> status is HostStarting || status is JoinConnecting,
        status is HostStarting ==> screen->message@ == "Запуск…"@,
        status is JoinConnecting ==> screen->message@ == "Подключение к хосту…"@,
        screen is HostTicket <==> status is HostWaiting,
        status matches StatusModel::HostWaiting { ticket } ==> screen->ticket@ == ticket,
        screen is Connected <==> status is HostConnected || status is JoinConnected,
{
}

/// A host with peers shows how many there are and, one line each and in their order, all of them by
/// their shown names; however many there are. No name may have a line break in it.
pub proof fn law_every_peer_is_shown(
    screen: Screen,
    ticket: Seq<char>,
    peers: Seq<Seq<char>>,
    local_port: Seq<char>,
)
    requires
        shows(screen, StatusModel::HostConnected { ticket, peers }, local_port),
        forall|i: int| 0 <= i < peers.len() ==> on_one_line(shown(#[trigger] peers[i])),
    ensures
        screen is Connected,
        screen->lines@.len() == 2 + peers.len(),
        screen->lines@[0] is Text,
        screen->lines@[0]->0@ == "Друзья подключены ("@ + decimal(peers.len()) + ")!"@,
        screen->lines@[1] is Gap,
        forall|i: int|
            0 <= i < peers.len() ==> {
                &&& (#[trigger] screen->lines@[2 + i]) is Text
                &&& screen->lines@[2 + i]->0@ == "• "@ + shown(peers[i])
            },
{
    law_host_message_lists_peers(peers);
    reveal_strlit("Друзья подключены (");
    reveal_strlit("• ");
    let r = screen->lines@;
    let all = host_lines(peers);
    assert(are_lines_of(r, host_message(peers)));
    assert(all[0] == "Друзья подключены ("@ + decimal(peers.len()) + ")!"@);
    assert(all[1].len() == 0);
    match r[0] {
        MessageLine::Gap => {},
        MessageLine::Text(_) => {},
    }
    match r[1] {
        MessageLine::Gap => {},
        MessageLine::Text(_) => {},
    }
    assert forall|i: int| 0 <= i < peers.len() implies {
        &&& (#[trigger] r[2 + i]) is Text
        &&& r[2 + i]->0@ == "• "@ + shown(peers[i])
    } by {
        assert(all[2 + i] == "• "@ + shown(peers[i]));
        match r[2 + i] {
            MessageLine::Gap => {},
            MessageLine::Text(_) => {},
        }
    }
}

/// Peers that go by the short names of their keys are all shown, by these names in full.
pub proof fn law_friends_are_shown_by_their_labels(
    screen: Screen,
    ticket: Seq<char>,
    ids: Seq<Seq<u8>>,
    local_port: Seq<char>,
)
    requires
        shows(
            screen,
            StatusModel::HostConnected { ticket, peers: ids.map_values(|id: Seq<u8>| label(id)) },
            local_port,
        ),
    ensures
        screen is Connected,
        screen->lines@.len() == 2 + ids.len(),
        forall|i: int|
            0 <= i < ids.len() ==> {
                &&& (#[trigger] screen->lines@[2 + i]) is Text
                &&& screen->lines@[2 + i]->0@ == "• "@ + label(ids[i])
            },
{
    let peers = ids.map_values(|id: Seq<u8>| label(id));
    assert forall|i: int| 0 <= i < peers.len() implies on_one_line(shown(#[trigger] peers[i])) by {
        law_label_is_shown(ids[i]);
        lemma_label_digits(ids[i]);
    }
    law_every_peer_is_shown(screen, ticket, peers, local_port);
    let r = screen->lines@;
    assert forall|i: int| 0 <= i < ids.len() implies {
        &&& (#[trigger] r[2 + i]) is Text
        &&& r[2 + i]->0@ == "• "@ + label(ids[i])
    } by {
        law_label_is_shown(ids[i]);
        assert(peers[i] == label(ids[i]));
    }
}

/// A friend who is connected is shown that, and the local port as it was entered.
pub proof fn law_local_port_is_shown(screen: Screen, local_port: Seq<char>)
    requires
        shows(screen, StatusModel::JoinConnected, local_port),
        on_one_line(local_port),
    ensures
        screen is Connected,
        screen->lines@.len() == 2,
        screen->lines@[0] is Text,
        screen->lines@[0]->0@ == "Подключено!"@,
        screen->lines@[1] is Text,
        screen->lines@[1]->0@ == "Локальный порт: "@ + local_port,
{
    reveal_strlit("Подключено!\nЛокальный порт: ");
    reveal_strlit("Подключено!");
    reveal_strlit("Локальный порт: ");
    let first = "Подключено!"@;
    let second = "Локальный порт: "@ + local_port;
    assert(join_message(local_port) =~= first + seq!['\n'] + second);
    assert(on_one_line(second)) by {
        assert forall|i: int| 0 <= i < second.len() implies #[trigger] second[i] != '\n'
            && second[i] != '\r' by {
            if i >= "Локальный порт: "@.len() {
                assert(second[i] == local_port[i - "Локальный порт: "@.len()]);
            }
        }
    }
    lemma_first_line(first, second);
    lemma_one_line(second);
    let r = screen->lines@;
    assert(lines(join_message(local_port)) =~= seq![first, second]);
    match r[0] {
        MessageLine::Gap => {},
        MessageLine::Text(_) => {},
    }
    match r[1] {
        MessageLine::Gap => {},
        MessageLine::Text(_) => {},
    }
}

/// A message is shown line by line: none is left out, the empty ones are gaps, and the others are
/// shown in full.
pub proof fn law_every_line_is_shown(r: Seq<MessageLine>, message: Seq<char>, i: int)
    requires
        are_lines_of(r, message),
        0 <= i < lines(message).len(),
    ensures
        r.len() == lines(message).len(),
        r[i] is Gap <==> lines(message)[i].len() == 0,
        lines(message)[i].len() > 0 ==> r[i]->0@ == lines(message)[i],
{
    match r[i] {
        MessageLine::Gap => {},
        MessageLine::Text(_) => {},
    }
}

/// A screen can be drawn unless a listed name is cut through a character.
pub proof fn law_only_cut_names_hinder(status: StatusModel)
    ensures
        !can_show(status) <==> status is HostConnected && exists|i: int|
            0 <= i < status->HostConnected_peers.len() && !can_cut(
                #[trigger] status->HostConnected_peers[i],
            ),
{
}

} // verus!
