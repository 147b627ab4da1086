//! Record and enum serialization as externally generated code performs
//! it: each field written and read through the core's capability
//! contract in declaration order, and an enum framed by a size-encoded
//! discriminant.

use bitsparrow::{Decoder, Encoder, Error};

#[derive(PartialEq, Debug)]
struct Foo {
    bar: Vec<Bar>,
    baz: String,
    derp: bool,
}

#[derive(PartialEq, Debug)]
struct Bar(u16);

#[derive(PartialEq, Debug)]
enum Doge {
    To,
    The,
    Moon,
}

fn encode_bar(bar: &Bar, e: &mut Encoder) {
    e.uint16(bar.0);
}

fn encode_foo(foo: &Foo, e: &mut Encoder) {
    e.size(foo.bar.len());
    for bar in &foo.bar {
        encode_bar(bar, e);
    }
    e.string(&foo.baz);
    e.bool(foo.derp);
}

fn decode_foo(d: &mut Decoder) -> Result<Foo, Error> {
    let count = d.size()?;
    let mut bar = Vec::new();
    for _ in 0..count {
        bar.push(Bar(d.uint16()?));
    }
    let baz = d.string()?.to_owned();
    let derp = d.bool()?;
    Ok(Foo { bar, baz, derp })
}

fn encode_doge(doge: &Doge, e: &mut Encoder) {
    let discriminant: usize = match *doge {
        Doge::To => 0,
        Doge::The => 1,
        Doge::Moon => 2,
    };
    e.size(discriminant);
}

#[test]
fn structs() {
    let foo = Foo { bar: vec![Bar(10), Bar(1337)], baz: "Hello world".into(), derp: true };

    let expect = vec![
        2, // Vec length
        0x00, 0x0A, // |-> 10
        0x05, 0x39, // `-> 1337
        11,   // String length
        b'H', b'e', b'l', b'l', b'o', b' ', b'w', b'o', b'r', b'l', b'd', // `-> String data
        1,    // bool
    ];

    let mut e = Encoder::new();
    encode_foo(&foo, &mut e);
    let buffer = e.end();

    let mut d = Decoder::new(&buffer);
    let decoded = decode_foo(&mut d).unwrap();
    assert!(d.end());

    assert_eq!(buffer, expect);
    assert_eq!(decoded, foo);
}

#[test]
fn plain_enums() {
    let doges = (Doge::To, Doge::The, Doge::Moon);

    let mut e = Encoder::new();
    encode_doge(&doges.0, &mut e);
    encode_doge(&doges.1, &mut e);
    encode_doge(&doges.2, &mut e);
    let buffer = e.end();

    assert_eq!(buffer, vec![0x00, 0x01, 0x02]);
}
