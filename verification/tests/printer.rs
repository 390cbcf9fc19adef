use hdl_parser::ast::{LhsConnector, RhsConnector};
use hdl_parser::parser::parse_hdl2;

const AND: &str =
    "CHIP And { IN a,b; OUT out; PARTS: Nand(a=a,b=b,out=c); Not(in=c,out=out); }";

#[test]
fn writes_a_chip_in_the_fixed_layout() {
    let chip = parse_hdl2(AND).unwrap();
    assert_eq!(
        chip.to_source(),
        "CHIP And {\n    IN a, b;\n    OUT out;\n    PARTS:\n    Nand(a=a, b=b, out=c);\n    Not(in=c, out=out);\n}\n"
    );
}

#[test]
fn writes_an_empty_chip() {
    let chip = parse_hdl2("CHIP E{IN;OUT;PARTS:}").unwrap();
    assert_eq!(chip.to_source(), "CHIP E {\n    IN;\n    OUT;\n    PARTS:\n}\n");
    let chip = parse_hdl2("CHIP E{IN;OUT;PARTS:P();}").unwrap();
    assert_eq!(
        chip.to_source(),
        "CHIP E {\n    IN;\n    OUT;\n    PARTS:\n    P();\n}\n"
    );
}

#[test]
fn writes_slices_and_constants() {
    let chip = parse_hdl2(
        "CHIP M { IN a, sel; OUT o; PARTS: Mux(a[ 3 ]=a[0..7], b [1 .. 2] = true, s=false, t = x[007]); }",
    )
    .unwrap();
    assert_eq!(
        chip.to_source(),
        "CHIP M {\n    IN a, sel;\n    OUT o;\n    PARTS:\n    Mux(a[3..3]=a[0..7], b[1..2]=true, s=false, t=x[7..7]);\n}\n"
    );
    let wires = &chip.parts[0].connections.0;
    assert!(matches!(wires[0].lhs.value, LhsConnector::Slice(_)));
    assert!(matches!(wires[1].rhs.value, RhsConnector::Potential(true)));
    assert!(matches!(wires[2].rhs.value, RhsConnector::Potential(false)));
}

#[test]
fn writes_large_numbers() {
    let chip = parse_hdl2("CHIP M{IN;OUT;PARTS:P(a[0..4294967295]=b[10]);}").unwrap();
    assert_eq!(
        chip.to_source(),
        "CHIP M {\n    IN;\n    OUT;\n    PARTS:\n    P(a[0..4294967295]=b[10..10]);\n}\n"
    );
}

fn reads_back(source: &str) {
    let first = parse_hdl2(source).unwrap();
    let written = first.to_source();
    let second = parse_hdl2(&written).unwrap();
    assert_eq!(second.name, *first.name.get());
    assert_eq!(second.in_decl.len(), first.in_decl.len());
    for (a, b) in second.in_decl.iter().zip(first.in_decl.iter()) {
        assert_eq!(a, b.get());
    }
    assert_eq!(second.out_decl.len(), first.out_decl.len());
    for (a, b) in second.out_decl.iter().zip(first.out_decl.iter()) {
        assert_eq!(a, b.get());
    }
    assert_eq!(second.parts.len(), first.parts.len());
    for (p, q) in second.parts.iter().zip(first.parts.iter()) {
        assert_eq!(p.name, *q.name.get());
        assert_eq!(p.connections.0.len(), q.connections.0.len());
    }
    assert_eq!(second.to_source(), written);
}

#[test]
fn reads_back_what_it_wrote() {
    reads_back(AND);
    reads_back("CHIP E{IN;OUT;PARTS:}");
    reads_back("\n\tCHIP  Xor\n{ IN a , b ; OUT out ;\nPARTS:\n Not ( in = a , out = nota ) ;\n Or(a=w1,b=w2,out=out);}\n\n");
    reads_back("CHIP M { IN a, sel; OUT o; PARTS: Mux(a[ 3 ]=a[0..7], b [1 .. 2] = true, s=false, t = x[007]); }");
    reads_back("CHIP größe { IN ä1, _ ; OUT ß; PARTS: Teil(é=ü[1..2], true=tru, false=fals); }");
    reads_back("CHIP truely { IN true, false; OUT IN; PARTS: PARTS(CHIP=OUT); }");
}

#[test]
fn signal_that_begins_with_a_constant_is_not_read_as_a_signal() {
    // `truex` on the right is the constant `true` and then `x`, which ends the list
    let r = parse_hdl2("CHIP A { IN a; OUT b; PARTS: P(a=truex); }");
    assert!(r.is_err());
    // on the left it is a name like any other
    let chip = parse_hdl2("CHIP A { IN a; OUT b; PARTS: P(truex=a); }").unwrap();
    assert_eq!(chip.parts[0].connections.0[0].lhs, LhsConnector::Bus("truex"));
}
