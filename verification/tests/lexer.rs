use rustium::lexer::Cursor;
use rustium::object::{ObjRef, Object};

fn parse(s: &str) -> Object {
    Cursor::new(s.as_bytes()).read_object().unwrap()
}

/// The value of a real number object, read as `f64`.
fn real_value(o: &Object) -> f64 {
    match o {
        Object::Real(t) => std::str::from_utf8(t).unwrap().parse::<f64>().unwrap(),
        other => panic!("not a real: {other:?}"),
    }
}

#[test]
fn scalars() {
    assert_eq!(parse("true"), Object::Bool(true));
    assert_eq!(parse("null"), Object::Null);
    assert_eq!(parse("42"), Object::Int(42));
    assert_eq!(parse("-3"), Object::Int(-3));
    assert_eq!(parse("+17"), Object::Int(17));
    assert_eq!(real_value(&parse(".5")), 0.5);
    assert_eq!(real_value(&parse("4.")), 4.0);
    // Broken double-sign forms keep the leading sign and drop the rest.
    assert_eq!(real_value(&parse("--0.5")), -0.5);
}

#[test]
fn names_with_escapes() {
    assert_eq!(parse("/Name1"), Object::Name("Name1".into()));
    assert_eq!(parse("/A#20B"), Object::Name("A B".into()));
    assert_eq!(parse("/"), Object::Name(String::new()));
}

#[test]
fn a_hash_without_two_hex_digits_is_kept_literally() {
    assert_eq!(parse("/A#4G"), Object::Name("A#4G".into()));
    assert_eq!(parse("/A#G"), Object::Name("A#G".into()));
    assert_eq!(parse("/A#4"), Object::Name("A#4".into()));
}

#[test]
fn strings() {
    assert_eq!(parse("(hello)"), Object::String(b"hello".to_vec()));
    assert_eq!(parse("(a(b)c)"), Object::String(b"a(b)c".to_vec()));
    assert_eq!(parse(r"(a\)b)"), Object::String(b"a)b".to_vec()));
    assert_eq!(parse(r"(\101\12)"), Object::String(b"A\n".to_vec()));
    assert_eq!(parse("<48656C6C6F>"), Object::String(b"Hello".to_vec()));
    assert_eq!(parse("<48 65 6c>"), Object::String(b"Hel".to_vec()));
    assert_eq!(parse("<484>"), Object::String(b"H@".to_vec()));
}

#[test]
fn refs_and_arrays() {
    assert_eq!(parse("12 0 R"), Object::Ref(ObjRef::new(12, 0)));
    let arr = parse("[1 2 0 R /X (s)]");
    let Object::Array(items) = arr else { panic!() };
    assert_eq!(items.len(), 4);
    assert_eq!(items[1], Object::Ref(ObjRef::new(2, 0)));
    // `1 2` followed by a name is two integers, not a ref.
    assert_eq!(items[0], Object::Int(1));
}

#[test]
fn dicts_nest() {
    let o = parse("<< /A 1 /B << /C (x) >> /D [1 2] >>");
    let d = o.as_dict().unwrap();
    assert_eq!(d.get("A"), Some(&Object::Int(1)));
    let b = d.get("B").unwrap().as_dict().unwrap();
    assert_eq!(b.get("C"), Some(&Object::String(b"x".to_vec())));
}

#[test]
fn ref_backtracking_does_not_eat_numbers() {
    let mut c = Cursor::new(b"1 2 3");
    assert_eq!(c.read_object(), Some(Object::Int(1)));
    assert_eq!(c.read_object(), Some(Object::Int(2)));
    assert_eq!(c.read_object(), Some(Object::Int(3)));
}

#[test]
fn reals_convert_to_integers_toward_zero() {
    assert_eq!(parse("2.9").as_int(), Some(2));
    assert_eq!(parse("-2.9").as_int(), Some(-2));
    assert_eq!(parse("1.5e3").as_int(), Some(1500));
    assert_eq!(parse("1e30").as_int(), Some(i64::MAX));
    assert_eq!(parse("-1e30").as_int(), Some(i64::MIN));
    assert_eq!(parse("7e-1").as_int(), Some(0));
    assert_eq!(parse("(x)").as_int(), None);
}

#[test]
fn objects_clone_to_equal_values() {
    let o = parse("<< /A [1 2.5 (s) /N] /B << /C null >> >>");
    assert_eq!(o.clone(), o);
}
