//! The two-step access prototype: a "machine" that accepts a known card,
//! then a known finger, and a "person" that answers it. Each side is a
//! state machine; the channels between them are the caller's.
use vstd::prelude::*;
use crate::text::{parse_i32, parse_u128, text_eq, text_to_i32, text_to_u128};

verus! {

/// The cards the machine knows.
pub open spec fn known_cards() -> Seq<int> {
    seq![101, 95, 43, 48, 86]
}

/// The fingers the machine knows.
pub open spec fn known_fingers() -> Seq<int> {
    seq![4, 2, 3, 1, 6]
}

/// How many unrecognized cards end the session.
pub open spec fn max_attempts() -> int {
    4
}

/// The machine's side: whether a card was recognized, and how many cards
/// were not.
#[derive(Clone, Copy, Debug, PartialEq, Eq, Structural)]
pub struct CardReader {
    pub found: bool,
    pub count: u16,
}

/// What one input makes the machine do: the messages it sends back, the
/// lines it prints, and whether it stops.
pub struct ReaderOutput {
    pub sent: Vec<&'static str>,
    pub said: Vec<&'static str>,
    pub stop: bool,
}

pub struct ReaderOutputView {
    pub sent: Seq<Seq<char>>,
    pub said: Seq<Seq<char>>,
    pub stop: bool,
}

pub open spec fn strs(v: Seq<&'static str>) -> Seq<Seq<char>> {
    v.map_values(|s: &'static str| s@)
}

/// The finger part of a step, for an input while a card is recognized.
pub open spec fn finger_part(input: Seq<char>) -> (Seq<Seq<char>>, Seq<Seq<char>>) {
    match parse_i32(input) {
        None => (Seq::empty(), seq!["Received invalid input."@]),
        Some(f) => if known_fingers().contains(f) {
            (seq!["5"@], seq!["Welcome!"@])
        } else {
            (Seq::empty(), Seq::empty())
        },
    }
}

/// What the machine does with one input, and its next state.
pub open spec fn reader_step(s: CardReader, input: Seq<char>) -> (CardReader, ReaderOutputView) {
    if !s.found {
        match parse_u128(input) {
            None => (s, ReaderOutputView { sent: Seq::empty(), said: seq!["Received invalid input."@], stop: false }),
            Some(card) => if known_cards().contains(card) {
                let (sent, said) = finger_part(input);
                (
                    CardReader { found: true, ..s },
                    ReaderOutputView {
                        sent: seq!["0"@] + sent,
                        said: seq!["Card recognized, please use fingerprint scanner."@] + said,
                        stop: false,
                    },
                )
            } else if s.count + 1 >= max_attempts() {
                (
                    CardReader { count: (s.count + 1) as u16, ..s },
                    ReaderOutputView {
                        sent: seq!["1"@],
                        said: seq!["Card not recognized."@, "Too many attempts. Please contact the main office."@],
                        stop: true,
                    },
                )
            } else {
                (
                    CardReader { count: (s.count + 1) as u16, ..s },
                    ReaderOutputView { sent: seq!["2"@], said: seq!["Card not recognized."@], stop: false },
                )
            },
        }
    } else {
        let (sent, said) = finger_part(input);
        (s, ReaderOutputView { sent, said, stop: false })
    }
}

impl ReaderOutput {
    pub open spec fn view(&self) -> ReaderOutputView {
        ReaderOutputView { sent: strs(self.sent@), said: strs(self.said@), stop: self.stop }
    }
}

fn is_known_card(c: u128) -> (r: bool)
    ensures
        r == known_cards().contains(c as int),
{
    let r = c == 101 || c == 95 || c == 43 || c == 48 || c == 86;
    proof {
        if r {
            assert(known_cards()[0] == 101 && known_cards()[1] == 95 && known_cards()[2] == 43 && known_cards()[3]
                == 48 && known_cards()[4] == 86);
        }
    }
    r
}

fn is_known_finger(f: i32) -> (r: bool)
    ensures
        r == known_fingers().contains(f as int),
{
    let r = f == 4 || f == 2 || f == 3 || f == 1 || f == 6;
    proof {
        if r {
            assert(known_fingers()[0] == 4 && known_fingers()[1] == 2 && known_fingers()[2] == 3 && known_fingers()[3]
                == 1 && known_fingers()[4] == 6);
        }
    }
    r
}

fn finger_part_exec(input: &str, sent: &mut Vec<&'static str>, said: &mut Vec<&'static str>)
    ensures
        strs(final(sent)@) == strs(old(sent)@) + finger_part(input@).0,
        strs(final(said)@) == strs(old(said)@) + finger_part(input@).1,
{
    match text_to_i32(input) {
        None => {
            said.push("Received invalid input.");
            assert(strs(said@) == strs(old(said)@) + finger_part(input@).1);
            assert(strs(sent@) == strs(old(sent)@) + finger_part(input@).0);
        },
        Some(f) => {
            if is_known_finger(f) {
                said.push("Welcome!");
                sent.push("5");
                assert(strs(said@) == strs(old(said)@) + finger_part(input@).1);
                assert(strs(sent@) == strs(old(sent)@) + finger_part(input@).0);
            } else {
                assert(strs(said@) == strs(old(said)@) + finger_part(input@).1);
                assert(strs(sent@) == strs(old(sent)@) + finger_part(input@).0);
            }
        },
    }
}

impl CardReader {
    /// No card recognized yet, no attempt made.
    pub fn new() -> (r: CardReader)
        ensures
            r == (CardReader { found: false, count: 0 }),
    {
        CardReader { found: false, count: 0 }
    }

    /// Handles one input.
    pub fn step(&mut self, input: &str) -> (r: ReaderOutput)
        requires
            old(self).count < max_attempts(),
        ensures
            (*final(self), r.view()) == reader_step(*old(self), input@),
            final(self).count < max_attempts() || r.stop,
    {
        let mut sent: Vec<&'static str> = Vec::new();
        let mut said: Vec<&'static str> = Vec::new();
        if !self.found {
            match text_to_u128(input) {
                None => {
                    said.push("Received invalid input.");
                    let r = ReaderOutput { sent, said, stop: false };
                    assert(strs(r.said@) =~= seq!["Received invalid input."@]);
                    assert(strs(r.sent@) =~= Seq::<Seq<char>>::empty());
                    assert(r.view() == reader_step(*old(self), input@).1);
                    return r;
                },
                Some(card) => {
                    if is_known_card(card) {
                        said.push("Card recognized, please use fingerprint scanner.");
                        sent.push("0");
                        assert(strs(said@) =~= seq!["Card recognized, please use fingerprint scanner."@]);
                        assert(strs(sent@) =~= seq!["0"@]);
                        self.found = true;
                        finger_part_exec(input, &mut sent, &mut said);
                        let r = ReaderOutput { sent, said, stop: false };
                        assert(r.view() == reader_step(*old(self), input@).1);
                        return r;
                    } else {
                        said.push("Card not recognized.");
                        self.count = self.count + 1;
                        if self.count >= 4 {
                            said.push("Too many attempts. Please contact the main office.");
                            sent.push("1");
                            let r = ReaderOutput { sent, said, stop: true };
                            assert(strs(r.said@) =~= seq!["Card not recognized."@, "Too many attempts. Please contact the main office."@]);
                            assert(strs(r.sent@) =~= seq!["1"@]);
                            assert(r.view() == reader_step(*old(self), input@).1);
                            return r;
                        } else {
                            sent.push("2");
                            let r = ReaderOutput { sent, said, stop: false };
                            assert(strs(r.said@) =~= seq!["Card not recognized."@]);
                            assert(strs(r.sent@) =~= seq!["2"@]);
                            assert(r.view() == reader_step(*old(self), input@).1);
                            return r;
                        }
                    }
                },
            }
        } else {
            finger_part_exec(input, &mut sent, &mut said);
            let r = ReaderOutput { sent, said, stop: false };
            assert(r.view() == reader_step(*old(self), input@).1);
            r
        }
    }
}

/// The person's side: what to do after the machine answered.
#[derive(Clone, Copy, Debug, PartialEq, Eq, Structural)]
pub enum PersonNext {
    /// Give the next card.
    Card,
    /// Give a finger.
    Finger,
    /// Stop.
    Stop,
}

/// After a card, the machine's answer `1` ends the session and `0` asks
/// for a finger; any other answer (or none) asks for another card.
pub fn after_card_answer(answer: Option<&str>) -> (r: PersonNext)
    ensures
        r == (match answer {
            Some(a) => if a@ == "1"@ {
                PersonNext::Stop
            } else if a@ == "0"@ {
                PersonNext::Finger
            } else {
                PersonNext::Card
            },
            None => PersonNext::Card,
        }),
{
    match answer {
        Some(a) => {
            if text_eq(a, "1") {
                PersonNext::Stop
            } else if text_eq(a, "0") {
                PersonNext::Finger
            } else {
                PersonNext::Card
            }
        },
        None => PersonNext::Card,
    }
}

/// After a finger, the machine's answer `5` ends the session; otherwise
/// the person gives another finger.
pub fn after_finger_answer(answer: Option<&str>) -> (r: PersonNext)
    ensures
        r == (match answer {
            Some(a) => if a@ == "5"@ { PersonNext::Stop } else { PersonNext::Finger },
            None => PersonNext::Finger,
        }),
{
    match answer {
        Some(a) => if text_eq(a, "5") { PersonNext::Stop } else { PersonNext::Finger },
        None => PersonNext::Finger,
    }
}

} // verus!
