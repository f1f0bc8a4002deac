//! Finding a device on the local network by its ID: a question is broadcast, and the
//! device that has the ID answers with the port of its sessions.
use crate::text::{
    all_digits, bytes_of, chars_of, decimal, decimal_text, digit, digits_in, has_prefix, is_text,
    keep_digits, law_decimal_reads_back, law_digits_are_kept, lemma_trimmed_is_same, number_in,
    parse_number, starts_with, string_of, trim, trimmed, white,
};
use vstd::prelude::*;
use vstd::utf8::{decode_utf8, encode_utf8, encode_utf8_decode_utf8, encode_utf8_valid_utf8, valid_utf8};

verus! {

/// Port of the questions.
pub const DISCOVERY_PORT: u16 = 49321;

/// Port of the sessions.
pub const SESSION_PORT: u16 = 49322;

/// How often a question is asked at most.
pub const SEARCH_ATTEMPTS: u32 = 6;

/// Milliseconds that an answer is waited for.
pub const SEARCH_WAIT_MS: u64 = 700;

// ---- Questions and answers -------------------------------------------------

/// The question for an ID.
pub open spec fn query_text(id: Seq<char>) -> Seq<char> {
    "OTIS?"@ + id
}

/// What an answer for an ID starts with.
pub open spec fn reply_head(id: Seq<char>) -> Seq<char> {
    "OTIS!"@ + id + "|"@
}

/// The answer of the device with an ID.
pub open spec fn reply_text(id: Seq<char>) -> Seq<char> {
    reply_head(id) + decimal_text(SESSION_PORT as nat)
}

/// Whether a datagram asks for an ID.
pub open spec fn asks_for(datagram: Seq<u8>, id: Seq<char>) -> bool {
    valid_utf8(datagram) && trimmed(decode_utf8(datagram)) == query_text(id)
}

/// The port that a datagram gives for an ID, where it is an answer for it.
pub open spec fn port_in(datagram: Seq<u8>, id: Seq<char>) -> Option<int> {
    let text = trimmed(decode_utf8(datagram));
    if valid_utf8(datagram) && has_prefix(text, reply_head(id)) {
        number_in(text.skip(reply_head(id).len() as int), 65535)
    } else {
        None
    }
}

/// The bytes of the question for an ID.
pub fn discovery_query(id: &str) -> (out: Vec<u8>)
    ensures
        out@ == encode_utf8(query_text(id@)),
{
    let text = "OTIS?".to_owned().concat(id);
    bytes_of(text.as_str())
}

/// The bytes to answer a datagram with, where it asks for this device's ID.
pub fn discovery_reply(id: &str, datagram: &[u8]) -> (out: Option<Vec<u8>>)
    ensures
        out is Some <==> asks_for(datagram@, id@),
        out is Some ==> out->0@ == encode_utf8(reply_text(id@)),
{
    match core::str::from_utf8(datagram) {
        Ok(text) => {
            let cs = chars_of(text);
            let wanted = "OTIS?".to_owned().concat(id);
            if !is_text(trim(cs.as_slice()), wanted.as_str()) {
                return None;
            }
            let port = decimal(SESSION_PORT as u64);
            let port = string_of(port.as_slice());
            let reply = "OTIS!".to_owned().concat(id).concat("|").concat(port.as_str());
            assert(reply@ =~= reply_text(id@));
            Some(bytes_of(reply.as_str()))
        },
        Err(_) => None,
    }
}

/// The port that a datagram gives for an ID, where it is an answer for it.
pub fn reply_port(id: &str, datagram: &[u8]) -> (out: Option<u16>)
    ensures
        match out {
            Some(port) => port_in(datagram@, id@) == Some(port as int),
            None => port_in(datagram@, id@) is None,
        },
{
    match core::str::from_utf8(datagram) {
        Ok(text) => {
            let cs = chars_of(text);
            let answer: &[char] = trim(cs.as_slice());
            let head = "OTIS!".to_owned().concat(id).concat("|");
            let head = chars_of(head.as_str());
            if !starts_with(answer, head.as_slice()) {
                return None;
            }
            let n: usize = answer.len();
            let rest: &[char] = &answer[head.len()..n];
            assert(rest@ =~= answer@.skip(head@.len() as int));
            match parse_number(rest, 65535) {
                Some(port) => Some(port as u16),
                None => None,
            }
        },
        Err(_) => None,
    }
}

// ---- Finding a device ------------------------------------------------------

/// Where to look for a device.
pub enum PeerTarget {
    /// Nowhere: what was given holds no ID.
    Nowhere,
    /// At the address that was given.
    Direct,
    /// On the local network, by this ID.
    Search(String),
}

/// What was given for a device, without the white space around it.
pub fn peer_text(peer: &str) -> (out: String)
    ensures
        out@ == trimmed(peer@),
{
    let cs = chars_of(peer);
    string_of(trim(cs.as_slice()))
}

/// Where to look for a device, given its trimmed text and whether that is an address.
/// Of anything else the digits are the ID.
pub fn peer_target(text: &str, is_address: bool) -> (out: PeerTarget)
    ensures
        is_address ==> out is Direct,
        !is_address && digits_in(text@).len() == 0 ==> out is Nowhere,
        !is_address && digits_in(text@).len() > 0 ==> out is Search && out->Search_0@ == digits_in(
            text@,
        ),
{
    if is_address {
        return PeerTarget::Direct;
    }
    let cs = chars_of(text);
    let id = keep_digits(cs.as_slice());
    if id.len() == 0 {
        PeerTarget::Nowhere
    } else {
        PeerTarget::Search(string_of(id.as_slice()))
    }
}

/// What became of a question.
pub enum SearchEvent {
    /// It could not be sent.
    NotSent,
    /// Nothing was heard in time.
    Silence,
    /// A datagram has come.
    Heard(Vec<u8>),
}

/// How a search goes on.
#[derive(Clone, Copy, PartialEq, Eq, Debug, Structural)]
pub enum SearchStep {
    /// The question is asked again.
    Again,
    /// The device was found, with this port.
    Found(u16),
    /// The device was not found.
    NotFound,
}

/// What was heard, if anything.
pub open spec fn heard(event: SearchEvent) -> Option<Seq<u8>> {
    match event {
        SearchEvent::Heard(datagram) => Some(datagram@),
        _ => None,
    }
}

/// The port in what was heard for an ID, if any.
pub open spec fn port_heard(datagram: Option<Seq<u8>>, id: Seq<char>) -> Option<int> {
    match datagram {
        Some(datagram) => port_in(datagram, id),
        None => None,
    }
}

/// How a search goes on that may ask `left` more times, the last question included.
pub open spec fn search_step(id: Seq<char>, left: int, datagram: Option<Seq<u8>>) -> SearchStep {
    match port_heard(datagram, id) {
        Some(port) => SearchStep::Found(port as u16),
        None => if left > 1 {
            SearchStep::Again
        } else {
            SearchStep::NotFound
        },
    }
}

/// How often a question may be asked yet that has been asked once more.
pub open spec fn questions_left(left: int) -> int {
    if left > 0 {
        left - 1
    } else {
        0
    }
}

/// A search for an ID: how often the question may be asked yet.
pub struct PeerSearch {
    pub id: String,
    pub left: u32,
}

impl PeerSearch {
    /// A search at its start.
    pub fn new(id: String) -> (out: PeerSearch)
        ensures
            out.id@ == id@,
            out.left == SEARCH_ATTEMPTS,
            out.left == 6,
    {
        PeerSearch { id, left: SEARCH_ATTEMPTS }
    }

    /// The bytes of the question.
    pub fn query(&self) -> (out: Vec<u8>)
        ensures
            out@ == encode_utf8(query_text(self.id@)),
    {
        discovery_query(self.id.as_str())
    }

    /// Takes what became of the question.
    pub fn handle(&mut self, event: SearchEvent) -> (step: SearchStep)
        ensures
            final(self).id == old(self).id,
            final(self).left == if old(self).left > 0 {
                old(self).left - 1
            } else {
                0
            },
            final(self).left == questions_left(old(self).left as int),
            step == search_step(old(self).id@, old(self).left as int, heard(event)),
    {
        let last = self.left <= 1;
        if self.left > 0 {
            self.left = self.left - 1;
        }
        if let SearchEvent::Heard(datagram) = event {
            if let Some(port) = reply_port(self.id.as_str(), datagram.as_slice()) {
                return SearchStep::Found(port);
            }
        }
        if last {
            SearchStep::NotFound
        } else {
            SearchStep::Again
        }
    }
}

/// Whether a device is there to be reached: it was found, with some port.
pub fn is_online_lan(found: Option<u16>) -> (out: bool)
    ensures
        out == (found is Some),
{
    found.is_some()
}

// ---- Laws ------------------------------------------------------------------

proof fn lemma_answer_is_trimmed(head: Seq<char>, tail: Seq<char>)
    requires
        head.len() > 0,
        head[0] == 'O',
        tail.len() > 0,
        digit(tail.last()),
    ensures
        trimmed(head + tail) == head + tail,
{
    let s = head + tail;
    assert(s[0] == 'O');
    assert(s.last() == tail.last());
    assert(!white(s[0]));
    assert(!white(s.last()));
    lemma_trimmed_is_same(s);
}

/// A device answers the question for its own ID.
pub proof fn law_device_answers_its_id(id: Seq<char>)
    requires
        all_digits(id),
        id.len() > 0,
    ensures
        asks_for(encode_utf8(query_text(id)), id),
{
    reveal_strlit("OTIS?");
    encode_utf8_valid_utf8(query_text(id));
    encode_utf8_decode_utf8(query_text(id));
    assert(digit(id[id.len() - 1]));
    lemma_answer_is_trimmed("OTIS?"@, id);
}

/// A device does not answer the question for another ID.
pub proof fn law_device_leaves_other_ids_alone(id: Seq<char>, other: Seq<char>)
    requires
        all_digits(other),
        other.len() > 0,
        id != other,
    ensures
        !asks_for(encode_utf8(query_text(other)), id),
{
    reveal_strlit("OTIS?");
    encode_utf8_decode_utf8(query_text(other));
    assert(digit(other[other.len() - 1]));
    lemma_answer_is_trimmed("OTIS?"@, other);
    if query_text(other) == query_text(id) {
        assert(query_text(other).skip(5) =~= other);
        assert(query_text(id).skip(5) =~= id);
    }
}

/// The answer for an ID gives the port of the sessions.
pub proof fn law_answer_gives_the_session_port(id: Seq<char>)
    ensures
        port_in(encode_utf8(reply_text(id)), id) == Some(SESSION_PORT as int),
{
    let head = reply_head(id);
    let port = decimal_text(SESSION_PORT as nat);
    reveal_strlit("OTIS!");
    encode_utf8_valid_utf8(reply_text(id));
    encode_utf8_decode_utf8(reply_text(id));
    law_decimal_reads_back(SESSION_PORT as nat, 65535);
    assert(digit(port[port.len() - 1]));
    assert(head[0] == 'O');
    lemma_answer_is_trimmed(head, port);
    assert((head + port).take(head.len() as int) =~= head);
    assert((head + port).skip(head.len() as int) =~= port);
}

/// An ID of digits is searched for as it is.
pub proof fn law_id_is_searched_whole(id: Seq<char>)
    requires
        all_digits(id),
    ensures
        digits_in(trimmed(id)) == id,
{
    if id.len() > 0 {
        assert(digit(id[0]));
        assert(digit(id[id.len() - 1]));
    }
    lemma_trimmed_is_same(id);
    law_digits_are_kept(id);
}

/// Result of a search that hears one thing, or nothing, after each question.
pub open spec fn search_result(
    id: Seq<char>,
    left: int,
    answers: Seq<Option<Seq<u8>>>,
) -> SearchStep
    decreases answers.len(),
{
    if answers.len() == 0 {
        SearchStep::Again
    } else {
        let step = search_step(id, left, answers[0]);
        if step is Again {
            search_result(id, left - 1, answers.drop_first())
        } else {
            step
        }
    }
}

/// A device whose answer is heard after one of the questions is found there, with the
/// port of its sessions, whatever else was heard before.
pub proof fn law_answer_is_found(
    id: Seq<char>,
    left: int,
    answers: Seq<Option<Seq<u8>>>,
    k: int,
)
    requires
        0 <= k < left,
        k < answers.len(),
        forall|j: int| 0 <= j < k ==> port_heard(#[trigger] answers[j], id) is None,
        answers[k] == Some(encode_utf8(reply_text(id))),
    ensures
        search_result(id, left, answers) == SearchStep::Found(SESSION_PORT),
    decreases k,
{
    if k == 0 {
        law_answer_gives_the_session_port(id);
    } else {
        let rest = answers.drop_first();
        assert(port_heard(answers[0], id) is None);
        assert forall|j: int| 0 <= j < k - 1 implies port_heard(#[trigger] rest[j], id) is None by {
            assert(rest[j] == answers[j + 1]);
        }
        law_answer_is_found(id, left - 1, rest, k - 1);
    }
}

/// A search that hears no answer gives up after its last question.
pub proof fn law_search_gives_up(id: Seq<char>, left: int, answers: Seq<Option<Seq<u8>>>)
    requires
        0 < left,
        answers.len() == left,
        forall|j: int| 0 <= j < left ==> port_heard(#[trigger] answers[j], id) is None,
    ensures
        search_result(id, left, answers) == SearchStep::NotFound,
        search_result(id, left, answers.drop_last()) == SearchStep::Again,
    decreases left,
{
    assert(port_heard(answers[0], id) is None);
    if left > 1 {
        let rest = answers.drop_first();
        assert forall|j: int| 0 <= j < left - 1 implies port_heard(#[trigger] rest[j], id) is None by {
            assert(rest[j] == answers[j + 1]);
        }
        law_search_gives_up(id, left - 1, rest);
        assert(answers.drop_last().drop_first() =~= rest.drop_last());
        assert(answers.drop_last()[0] == answers[0]);
    } else {
        assert(answers.drop_last() =~= Seq::empty());
    }
}

/// The texts of question and answer: the question is a mark and the ID; the answer is
/// another mark, the ID, a bar and the port of the sessions.
pub proof fn law_questions_and_answers_name_the_id(id: Seq<char>)
    ensures
        query_text(id) == seq!['O', 'T', 'I', 'S', '?'] + id,
        reply_text(id) == seq!['O', 'T', 'I', 'S', '!'] + id + seq!['|', '4', '9', '3', '2', '2'],
{
    reveal_strlit("OTIS?");
    reveal_strlit("OTIS!");
    reveal_strlit("|");
    assert("OTIS?"@ =~= seq!['O', 'T', 'I', 'S', '?']);
    reveal_with_fuel(decimal_text, 5);
    assert(decimal_text(49322) =~= seq!['4', '9', '3', '2', '2']);
    assert(reply_text(id) =~= seq!['O', 'T', 'I', 'S', '!'] + id + seq![
        '|',
        '4',
        '9',
        '3',
        '2',
        '2',
    ]);
}

/// A datagram asks for an ID where it is the text of the question, with white space around it
/// or not, and no datagram asks for two.
pub proof fn law_a_question_is_for_one_id(datagram: Seq<u8>, id: Seq<char>, other: Seq<char>)
    ensures
        asks_for(datagram, id) <==> valid_utf8(datagram) && trimmed(decode_utf8(datagram)) == seq![
            'O',
            'T',
            'I',
            'S',
            '?',
        ] + id,
        asks_for(datagram, id) && asks_for(datagram, other) ==> id == other,
{
    law_questions_and_answers_name_the_id(id);
    law_questions_and_answers_name_the_id(other);
    if asks_for(datagram, id) && asks_for(datagram, other) {
        assert(query_text(id).skip(5) =~= id);
        assert(query_text(other).skip(5) =~= other);
    }
}

/// An answer gives the port that it names, whatever that is, and only to whom searches for
/// its ID.
pub proof fn law_an_answer_gives_its_port(id: Seq<char>, other: Seq<char>, port: nat)
    requires
        port <= 65535,
    ensures
        ({
            let answer = encode_utf8(
                seq!['O', 'T', 'I', 'S', '!'] + id + seq!['|'] + decimal_text(port),
            );
            &&& port_in(answer, id) == Some(port as int)
            &&& all_digits(id) && all_digits(other) && id != other ==> port_in(answer, other) is None
        }),
{
    reveal_strlit("OTIS!");
    reveal_strlit("|");
    let head = seq!['O', 'T', 'I', 'S', '!'] + id + seq!['|'];
    let digits = decimal_text(port);
    let text = head + digits;
    assert(seq!['O', 'T', 'I', 'S', '!'] + id + seq!['|'] + digits =~= text);
    assert(reply_head(id) =~= head);
    encode_utf8_valid_utf8(text);
    encode_utf8_decode_utf8(text);
    law_decimal_reads_back(port, 65535);
    assert(digit(digits[digits.len() - 1]));
    assert(head[0] == 'O');
    lemma_answer_is_trimmed(head, digits);
    assert(text.take(head.len() as int) =~= head);
    assert(text.skip(head.len() as int) =~= digits);
    if all_digits(id) && all_digits(other) && has_prefix(text, reply_head(other)) {
        let n = other.len() as int;
        let begin = text.take(n + 6);
        assert(begin == reply_head(other));
        assert(text[n + 5] == begin[n + 5]);
        assert(reply_head(other)[n + 5] == '|');
        assert(text[id.len() as int + 5] == '|');
        if n < id.len() {
            assert(text[n + 5] == id[n]);
            assert(digit(id[n]));
        } else if n > id.len() {
            let m = id.len() as int;
            assert(text[m + 5] == begin[m + 5]);
            assert(reply_head(other)[m + 5] == other[m]);
            assert(digit(other[m]));
        }
        assert forall|i: int| 0 <= i < n implies id[i] == other[i] by {
            assert(text[i + 5] == begin[i + 5]);
            assert(reply_head(other)[i + 5] == other[i]);
        }
        assert(id =~= other);
    }
}

/// A search asks up to six times. What it hears after a question decides: an answer for the ID
/// ends it there with the port, and without one it asks again until the last question.
pub proof fn law_a_search_asks_again_until_it_is_answered(
    id: Seq<char>,
    left: int,
    datagram: Option<Seq<u8>>,
)
    ensures
        SEARCH_ATTEMPTS == 6,
        match datagram {
            Some(bytes) => match port_in(bytes, id) {
                Some(port) => search_step(id, left, datagram) == SearchStep::Found(port as u16),
                None => search_step(id, left, datagram) == if left > 1 {
                    SearchStep::Again
                } else {
                    SearchStep::NotFound
                },
            },
            None => search_step(id, left, datagram) == if left > 1 {
                SearchStep::Again
            } else {
                SearchStep::NotFound
            },
        },
{
}

/// Questions and sessions have ports next to each other, and a whole search takes a bit more
/// than four seconds at most.
pub proof fn law_ports_and_times_of_a_search()
    ensures
        DISCOVERY_PORT == 49321,
        SESSION_PORT == DISCOVERY_PORT + 1,
        SEARCH_ATTEMPTS * SEARCH_WAIT_MS == 4200,
{
}

/// Each question counts, so that a search ends.
pub proof fn law_each_question_counts(left: int)
    ensures
        left > 0 ==> questions_left(left) == left - 1,
        left <= 0 ==> questions_left(left) == 0,
{
}

/// A datagram gives a port for an ID only where it is an answer for it: the mark, the ID and the
/// bar, and behind them nothing but the port, with white space around it all or not.
pub proof fn law_only_answers_give_a_port(datagram: Seq<u8>, id: Seq<char>, port: int)
    ensures
        port_in(datagram, id) == Some(port) <==> valid_utf8(datagram) && exists|rest: Seq<char>|
            #[trigger] number_in(rest, 65535) == Some(port) && trimmed(decode_utf8(datagram)) == seq![
                'O',
                'T',
                'I',
                'S',
                '!',
            ] + id + seq!['|'] + rest,
{
    reveal_strlit("OTIS!");
    reveal_strlit("|");
    let head = seq!['O', 'T', 'I', 'S', '!'] + id + seq!['|'];
    assert(reply_head(id) =~= head);
    let text = trimmed(decode_utf8(datagram));
    let n = head.len() as int;
    if has_prefix(text, head) {
        assert(text =~= head + text.skip(n));
    }
    assert forall|rest: Seq<char>| text == #[trigger] (head + rest) implies has_prefix(text, head)
        && text.skip(n) == rest by {
        assert(text.take(n) =~= head);
        assert(text.skip(n) =~= rest);
    }
}

} // verus!
