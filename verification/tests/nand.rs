use hdl_parser::bus::Bus;
use hdl_parser::input::same_text;
use hdl_parser::nand::Nand;
use hdl_parser::part::{find, Connection, Part};

fn wire<'s>(dest: &'s str, data: u128) -> (&'s str, Connection<'s>) {
    (
        dest,
        Connection {
            bus: Bus { data, size: 8 },
            chip_name: "Nand",
            source: "x",
            source_slice: (0, 1),
            source_span: (0, 1),
            dest,
            dest_slice: (0, 1),
            dest_span: (0, 1),
        },
    )
}

fn run(a: u128, b: u128) -> Bus {
    let mut gate = Nand::new();
    gate.load(vec![wire("a", a), wire("b", b)]);
    let outs = gate.simulate();
    assert_eq!(outs, gate.outs());
    assert_eq!(outs.len(), 1);
    outs[0]
}

#[test]
fn nand_truth_table() {
    assert_eq!(run(0, 0).pin(0), Bus { data: 1, size: 1 });
    assert_eq!(run(0, 1).pin(0), Bus { data: 1, size: 1 });
    assert_eq!(run(1, 0).pin(0), Bus { data: 1, size: 1 });
    assert_eq!(run(1, 1).pin(0), Bus { data: 0, size: 1 });
}

#[test]
fn nand_reads_pin_0_only() {
    assert_eq!(run(0b10, 0b11).pin(0), Bus { data: 1, size: 1 });
    assert_eq!(run(0b11, 0b101).pin(0), Bus { data: 0, size: 1 });
}

#[test]
fn nand_output_is_the_complement_of_the_conjunction() {
    assert_eq!(run(1, 1), Bus { data: !1u128, size: 1 });
    assert_eq!(run(1, 0), Bus { data: u128::MAX, size: 1 });
}

#[test]
fn nand_is_named_and_starts_low() {
    let gate = Nand::new();
    assert_eq!(gate.name(), "Nand");
    assert_eq!(gate.outs(), vec![Bus { data: 0, size: 1 }]);
}

#[test]
fn nand_load_keeps_the_output() {
    let mut gate = Nand::new();
    gate.load(vec![wire("a", 1), wire("b", 1)]);
    assert_eq!(gate.outs(), vec![Bus { data: 0, size: 1 }]);
}

#[test]
fn first_wire_under_a_pin_counts() {
    let inputs = vec![wire("b", 1), wire("a", 0), wire("a", 1)];
    assert_eq!(find(&inputs, "a").unwrap().bus.data, 0);
    assert_eq!(find(&inputs, "b").unwrap().bus.data, 1);
    assert!(find(&inputs, "c").is_none());
    assert!(find(&inputs, "").is_none());
    let mut gate = Nand::new();
    gate.load(inputs);
    assert_eq!(gate.simulate()[0].pin(0), Bus { data: 1, size: 1 });
}

#[test]
fn texts_are_the_same_or_not() {
    assert!(same_text("abc", "abc"));
    assert!(same_text("", ""));
    assert!(!same_text("abc", "ab"));
    assert!(!same_text("ab", "abc"));
    assert!(!same_text("abc", "abd"));
    assert!(!same_text("", "a"));
    assert!(same_text("größe", "größe"));
}
