use hdl_parser::ast::{ChipName, Connection, ConnectionList, LhsConnector, PinName, RhsConnector};
use hdl_parser::input::Input;
use hdl_parser::parser::{
    bus_slice, chip, chip_body, chip_head, connection, connection_list, identifier, part,
    pin_decl, pin_list, rhs_connector, In, Out,
};

#[test]
fn ident_0() {
    let (rem, res) = identifier(Input::new("ALU_01!")).unwrap();
    assert_eq!(rem.into_fragment(), "!");
    assert_eq!(res, "ALU_01");
}

#[test]
fn ident_1() {
    let r = identifier(Input::new("99ALU_01!"));
    assert!(r.is_err())
}

#[test]
fn ident_2() {
    let (rem, res) = identifier(Input::new("_ALU_01 ")).unwrap();
    assert_eq!(rem.into_fragment(), " ");
    assert_eq!(res, "_ALU_01");
}

#[test]
fn chip_head_0() {
    let (rem, res) = chip_head(Input::new("\tCHIP ALU_01!")).unwrap();
    assert_eq!(rem.into_fragment(), "!");
    assert_eq!(res, ChipName("ALU_01"));
    // the name begins at byte 6 and the text behind it at byte 12,
    // so its last byte is byte 11
    assert_eq!((res.offset(), res.end_offset()), (6, 12));
    assert_eq!(res.span(), (6, 11));
}

#[test]
fn chip_head_1() {
    let res = chip_head(Input::new("\tChip ALU_01!"));
    assert!(res.is_err())
}

#[test]
fn chip_head_2() {
    let (rem, res) = chip_head(Input::new("CHIPALU_01!")).unwrap();
    assert_eq!(rem.into_fragment(), "!");
    assert_eq!(res, ChipName("ALU_01"));
}

#[test]
fn body_0() {
    let (rem, _res) = chip_body(Input::new(" {\tIN;\nOUT; PARTS: } ")).unwrap();
    assert_eq!(rem.into_fragment(), " ");
}

#[test]
#[should_panic]
fn body_1() {
    let (_rem, _res) = chip_body(Input::new(" {  ")).unwrap();
}

#[test]
fn pin_list_0() {
    let (rem, res) = pin_list(Input::new("a, b , c,d;")).unwrap();
    assert_eq!(rem.into_fragment(), ";");
    assert_eq!(
        res,
        vec![PinName("a"), PinName("b"), PinName("c"), PinName("d")]
    );
}

#[test]
fn pin_list_1() {
    let (rem, res) = pin_list(Input::new("a, b  c,d;")).unwrap();
    assert_eq!(res, vec![PinName("a"), PinName("b")]);
    assert_eq!(rem.into_fragment(), "  c,d;");
}

#[test]
fn input_pin_0() {
    let (rem, res) = pin_decl::<In>(Input::new("IN a, b , c,d; ")).unwrap();
    assert_eq!(rem.into_fragment(), " ");
    assert_eq!(
        res,
        vec![PinName("a"), PinName("b"), PinName("c"), PinName("d")]
    );
}

#[test]
#[should_panic]
fn input_pin_1() {
    let (_rem, _res) = pin_decl::<In>(Input::new("IN a, b , c,d")).unwrap();
}

#[test]
#[should_panic]
fn input_pin_2() {
    let (_rem, _res) = pin_decl::<In>(Input::new("OUT a, b , c,d")).unwrap();
}

#[test]
fn output_pin_0() {
    let (rem, res) = pin_decl::<Out>(Input::new("OUT a, b , c,d; ")).unwrap();
    assert_eq!(rem.into_fragment(), " ");
    assert_eq!(
        res,
        vec![PinName("a"), PinName("b"), PinName("c"), PinName("d")]
    );
}

#[test]
fn bus_slice0() {
    let (rem, slice) = bus_slice(Input::new("a [ 22 ] ")).unwrap();
    assert_eq!(rem.into_fragment(), " ");
    assert_eq!(slice.name, PinName("a"));
    assert_eq!(slice.slice.0, 22);
    assert_eq!(slice.slice.1, 22);
}

#[test]
fn bus_slice1() {
    let (rem, slice) = bus_slice(Input::new("a[ 1 .. 3 ] ")).unwrap();
    assert_eq!(rem.into_fragment(), " ");
    assert_eq!(slice.name, PinName("a"));
    assert_eq!(slice.slice.0, 1);
    assert_eq!(slice.slice.1, 3);
}

#[test]
fn rhs_connector_0() {
    let (rem, res) = rhs_connector(Input::new("true ")).unwrap();
    assert_eq!(rem.into_fragment(), " ");
    assert_eq!(res, RhsConnector::Potential(true));
}

#[test]
fn rhs_connector_1() {
    let (rem, res) = rhs_connector(Input::new("false ")).unwrap();
    assert_eq!(rem.into_fragment(), " ");
    assert_eq!(res, RhsConnector::Potential(false));
}

#[test]
fn rhs_connector_2() {
    let (rem, res) = rhs_connector(Input::new("ab ")).unwrap();
    assert_eq!(rem.into_fragment(), " ");
    assert_eq!(res, RhsConnector::Bus("ab"));
}

#[test]
fn rhs_connector_3() {
    let (rem, _res) = rhs_connector(Input::new("a[10..12] ")).unwrap();
    assert_eq!(rem.into_fragment(), " ");
    // just check that it works
}

#[test]
fn connection_0() {
    let (rem, Connection { lhs: a, rhs: b }) = connection(Input::new(" a = b ")).unwrap();
    assert_eq!(rem.into_fragment(), " ");
    assert_eq!(a, LhsConnector::Bus("a"));
    assert_eq!(b, RhsConnector::Bus("b"));
}

#[test]
#[should_panic]
fn connection_1() {
    let (_rem, _c) = connection(Input::new(" a = 1 ")).unwrap();
}

#[test]
fn connection_list_0() {
    let (rem, ConnectionList(list)) =
        connection_list(Input::new(" a = b , c = false , d= in ")).unwrap();
    assert_eq!(rem.into_fragment(), " ");
    assert_eq!(list[0].lhs.get(), &LhsConnector::Bus("a"));
    assert_eq!(list[1].lhs.get(), &LhsConnector::Bus("c"));
    assert_eq!(list[2].lhs.get(), &LhsConnector::Bus("d"));
}

#[test]
fn part_0() {
    let (rem, part) = part(Input::new("And ( a = a , b = false ) ; ")).unwrap();
    assert_eq!(rem.into_fragment(), " ");
    assert_eq!(part.name, ChipName("And"));
    assert_eq!(part.connections.0.len(), 2);
}

#[test]
fn chip_0() {
    let (rem, chip) = chip(Input::new("CHIP And { \n IN a,b; OUT out; \n PARTS: \n Nand(a=a,b=b,out=c); \n Not(in=c,out=out); } ")).unwrap();
    assert_eq!(rem.into_fragment(), " ");
    assert_eq!(chip.name, ChipName("And"));
    assert_eq!(chip.in_decl, vec![PinName("a"), PinName("b")]);
    assert_eq!(chip.out_decl, vec![PinName("out")]);
    assert_eq!(chip.parts[0].name, ChipName("Nand"));
    assert_eq!(chip.parts[1].name, ChipName("Not"));
}

#[test]
fn bus_slice_single_and_range() {
    let (rem, slice) = bus_slice(Input::new("a[22]")).unwrap();
    assert_eq!(rem.into_fragment(), "");
    assert_eq!((slice.slice.0.value, slice.slice.1.value), (22, 22));
    assert_eq!(slice.slice.0.span(), (2, 3));
    assert_eq!(slice.slice.1.span(), (2, 3));
    let (rem, slice) = bus_slice(Input::new("a[1..3]")).unwrap();
    assert_eq!(rem.into_fragment(), "");
    assert_eq!((slice.slice.0.value, slice.slice.1.value), (1, 3));
    assert_eq!(slice.slice.0.span(), (2, 2));
    assert_eq!(slice.slice.1.span(), (5, 5));
    // low above high is read as written
    let (_, slice) = bus_slice(Input::new("a[3..1]")).unwrap();
    assert_eq!((slice.slice.0.value, slice.slice.1.value), (3, 1));
}

#[test]
fn lists_stop_in_front_of_a_comma_that_nothing_follows() {
    let (rem, res) = pin_list(Input::new("a, b , ;")).unwrap();
    assert_eq!(res, vec![PinName("a"), PinName("b")]);
    assert_eq!(rem.into_fragment(), " , ;");
    let (rem, res) = pin_list(Input::new(";")).unwrap();
    assert!(res.is_empty());
    assert_eq!(rem.into_fragment(), ";");
    let (rem, ConnectionList(list)) = connection_list(Input::new("a=b, c=, d=e")).unwrap();
    assert_eq!(list.len(), 1);
    assert_eq!(rem.into_fragment(), ", c=, d=e");
    let (rem, ConnectionList(list)) = connection_list(Input::new(")")).unwrap();
    assert!(list.is_empty());
    assert_eq!(rem.into_fragment(), ")");
}

#[test]
fn lhs_slice_is_tried_before_the_name() {
    let (rem, Connection { lhs, rhs }) = connection(Input::new("a[1]=true")).unwrap();
    assert_eq!(rem.into_fragment(), "");
    assert!(matches!(lhs.value, LhsConnector::Slice(_)));
    assert_eq!(lhs.span(), (0, 3));
    assert_eq!(rhs, RhsConnector::Potential(true));
    assert_eq!(rhs.span(), (5, 8));
}
