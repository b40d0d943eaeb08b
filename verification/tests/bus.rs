use std::cell::RefCell;
use std::rc::Rc;
use winc::bsp::{BusError, Pin, Spibus};
use winc::wire::{Line, TracedBus, TracedPin, Wire};

/// What the wire saw, in the order in which it saw it.
#[derive(Debug, Clone, Copy, PartialEq, Eq)]
enum Event {
    Select(bool),
    Byte(u8),
}

struct Tape {
    events: Vec<Event>,
    replies: Vec<u8>,
    next: usize,
}

struct TapeLine(Rc<RefCell<Tape>>);

struct TapeWire(Rc<RefCell<Tape>>);

impl Line for TapeLine {
    fn set_high(&mut self) {
        self.0.borrow_mut().events.push(Event::Select(true));
    }

    fn set_low(&mut self) {
        self.0.borrow_mut().events.push(Event::Select(false));
    }
}

impl Wire for TapeWire {
    fn exchange(&mut self, out: u8) -> u8 {
        let mut tape = self.0.borrow_mut();
        tape.events.push(Event::Byte(out));
        let at = tape.next;
        tape.next += 1;
        if at < tape.replies.len() {
            tape.replies[at]
        } else {
            0xFF
        }
    }
}

fn bus_with(replies: &[u8]) -> (TracedBus<TapeWire, TapeLine>, Rc<RefCell<Tape>>) {
    let wire = Rc::new(RefCell::new(Tape { events: Vec::new(), replies: replies.to_vec(), next: 0 }));
    (TracedBus::new(TapeWire(wire.clone()), TapeLine(wire.clone())), wire)
}

fn deassertions(events: &[Event]) -> usize {
    events.iter().filter(|e| **e == Event::Select(false)).count()
}

fn assertions(events: &[Event]) -> usize {
    events.iter().filter(|e| **e == Event::Select(true)).count()
}

#[test]
fn pin_drives_high_when_asserted_and_low_otherwise() {
    let wire = Rc::new(RefCell::new(Tape { events: Vec::new(), replies: Vec::new(), next: 0 }));
    let mut pin = TracedPin::new(TapeLine(wire.clone()));
    pin.set_asserted(true);
    pin.set_asserted(false);
    pin.set_asserted(false);
    pin.set_asserted(true);
    assert_eq!(
        wire.borrow().events,
        vec![Event::Select(true), Event::Select(false), Event::Select(false), Event::Select(true)]
    );
    let _line = pin.release();
}

#[test]
fn transfer_is_one_exchange_and_leaves_chip_select_alone() {
    let (mut bus, wire) = bus_with(&[0x5A]);
    assert_eq!(bus.transfer(0xA5), 0x5A);
    assert_eq!(wire.borrow().events, vec![Event::Byte(0xA5)]);
}

#[test]
fn cs_pin_lends_the_chip_select_line() {
    let (mut bus, wire) = bus_with(&[]);
    bus.cs_pin().set_asserted(true);
    bus.transfer(1);
    bus.cs_pin().set_asserted(false);
    assert_eq!(
        wire.borrow().events,
        vec![Event::Select(true), Event::Byte(1), Event::Select(false)]
    );
}

#[test]
fn tx_sends_every_byte_in_order_inside_one_bracket() {
    let (mut bus, wire) = bus_with(&[9, 9, 9]);
    bus.tx(&[0x11, 0x22, 0x33]);
    assert_eq!(
        wire.borrow().events,
        vec![
            Event::Select(true),
            Event::Byte(0x11),
            Event::Byte(0x22),
            Event::Byte(0x33),
            Event::Select(false),
        ]
    );
}

#[test]
fn tx_of_nothing_still_brackets() {
    let (mut bus, wire) = bus_with(&[]);
    bus.tx(&[]);
    assert_eq!(wire.borrow().events, vec![Event::Select(true), Event::Select(false)]);
}

#[test]
fn rx_sends_filler_and_stores_replies_in_order() {
    let (mut bus, wire) = bus_with(&[0xDE, 0xAD, 0xBE]);
    let mut buffer = [0x77u8; 3];
    bus.rx(&mut buffer);
    assert_eq!(buffer, [0xDE, 0xAD, 0xBE]);
    assert_eq!(
        wire.borrow().events,
        vec![
            Event::Select(true),
            Event::Byte(0),
            Event::Byte(0),
            Event::Byte(0),
            Event::Select(false),
        ]
    );
}

#[test]
fn rx_into_empty_buffer_exchanges_nothing() {
    let (mut bus, wire) = bus_with(&[1, 2]);
    let mut buffer: [u8; 0] = [];
    bus.rx(&mut buffer);
    assert_eq!(wire.borrow().events, vec![Event::Select(true), Event::Select(false)]);
    assert_eq!(wire.borrow().next, 0);
}

#[test]
fn transact_returns_one_reply_for_each_byte_sent() {
    let (mut bus, wire) = bus_with(&[0xA0, 0xA1, 0xA2, 0xA3]);
    let received = bus.transact(&[1, 2, 3, 4], 4);
    assert_eq!(received, Ok(vec![0xA0, 0xA1, 0xA2, 0xA3]));
    assert_eq!(
        wire.borrow().events,
        vec![
            Event::Select(true),
            Event::Byte(1),
            Event::Byte(2),
            Event::Byte(3),
            Event::Byte(4),
            Event::Select(false),
        ]
    );
}

#[test]
fn transact_with_room_to_spare_returns_exactly_what_was_received() {
    let (mut bus, _wire) = bus_with(&[0x10, 0x20]);
    assert_eq!(bus.transact(&[7, 8], 100), Ok(vec![0x10, 0x20]));
    assert_eq!(bus.transact(&[7, 8], usize::MAX), Ok(vec![0xFF, 0xFF]));
}

#[test]
fn transact_of_nothing_needs_no_room() {
    let (mut bus, wire) = bus_with(&[]);
    assert_eq!(bus.transact(&[], 0), Ok(vec![]));
    assert_eq!(wire.borrow().events, vec![Event::Select(true), Event::Select(false)]);
}

#[test]
fn transact_with_too_little_room_is_a_sizing_error() {
    let (mut bus, _wire) = bus_with(&[0xA0, 0xA1, 0xA2, 0xA3]);
    assert_eq!(bus.transact(&[1, 2, 3, 4], 3), Err(BusError::ReceiveBufferTooSmall));
    let (mut bus, _wire) = bus_with(&[0xA0]);
    assert_eq!(bus.transact(&[1], 0), Err(BusError::ReceiveBufferTooSmall));
}

#[test]
fn transact_stops_at_the_first_reply_without_room_and_releases_chip_select() {
    let (mut bus, wire) = bus_with(&[0xA0, 0xA1, 0xA2, 0xA3, 0xA4]);
    assert_eq!(bus.transact(&[1, 2, 3, 4, 5], 2), Err(BusError::ReceiveBufferTooSmall));
    assert_eq!(
        wire.borrow().events,
        vec![
            Event::Select(true),
            Event::Byte(1),
            Event::Byte(2),
            Event::Byte(3),
            Event::Select(false),
        ]
    );
}

#[test]
fn every_bulk_call_deasserts_chip_select_exactly_once() {
    let (mut bus, wire) = bus_with(&[]);
    bus.tx(&[1, 2]);
    assert_eq!(deassertions(&wire.borrow().events), 1);
    assert_eq!(assertions(&wire.borrow().events), 1);
    let mut buffer = [0u8; 2];
    bus.rx(&mut buffer);
    assert_eq!(deassertions(&wire.borrow().events), 2);
    assert_eq!(assertions(&wire.borrow().events), 2);
    assert!(bus.transact(&[1, 2, 3], 3).is_ok());
    assert_eq!(deassertions(&wire.borrow().events), 3);
    assert_eq!(assertions(&wire.borrow().events), 3);
    assert!(bus.transact(&[1, 2, 3], 1).is_err());
    assert_eq!(deassertions(&wire.borrow().events), 4);
    assert_eq!(assertions(&wire.borrow().events), 4);
    assert_eq!(wire.borrow().events.last(), Some(&Event::Select(false)));
}

#[test]
fn bus_release_hands_back_wire_and_line() {
    let (mut bus, wire) = bus_with(&[3]);
    bus.tx(&[1]);
    let (mut serial, mut line) = bus.release();
    assert_eq!(serial.exchange(2), 0xFF);
    line.set_high();
    assert_eq!(
        wire.borrow().events,
        vec![
            Event::Select(true),
            Event::Byte(1),
            Event::Select(false),
            Event::Byte(2),
            Event::Select(true),
        ]
    );
}
