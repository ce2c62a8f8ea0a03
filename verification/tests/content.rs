use rustium::content::{operations, Operation};

fn ops(data: &[u8]) -> Vec<Operation> {
    operations(data)
}

#[test]
fn simple_text_ops() {
    let v = ops(b"BT /F1 12 Tf 72 720 Td (Hi) Tj ET");
    let names: Vec<&str> = v.iter().map(|o| o.operator.as_str()).collect();
    assert_eq!(names, ["BT", "Tf", "Td", "Tj", "ET"]);
    assert_eq!(v[1].operands[0].as_name(), Some("F1"));
    assert_eq!(v[1].operands[1].as_int(), Some(12));
    assert_eq!(v[3].operands[0].as_string(), Some(&b"Hi"[..]));
}

#[test]
fn tj_array_and_negative_numbers() {
    let v = ops(b"[(A) -120 (B)] TJ");
    assert_eq!(v[0].operator, "TJ");
    let arr = v[0].operands[0].as_array().unwrap();
    assert_eq!(arr.len(), 3);
    assert_eq!(arr[1].as_int(), Some(-120));
}

#[test]
fn quote_operators() {
    let v = ops(b"(x) ' (y) 1 2 \" ");
    assert_eq!(v[0].operator, "'");
    assert_eq!(v[1].operator, "\"");
}

#[test]
fn inline_image() {
    let v = ops(b"q BI /W 2 /H 2 /BPC 8 /CS /G ID \x00\x01\x02\x03 EI Q");
    assert_eq!(v.len(), 3);
    assert_eq!(v[1].operator, "BI");
    let dict = v[1].operands[0].as_dict().unwrap();
    assert_eq!(dict.get("Width").unwrap().as_int(), Some(2));
    assert_eq!(v[1].inline_data.as_deref(), Some(&[0u8, 1, 2, 3][..]));
    assert_eq!(v[2].operator, "Q");
}

#[test]
fn inline_image_with_ei_bytes_in_data() {
    // Data contains `EI` not surrounded by whitespace: must not end there.
    let v = ops(b"BI /W 1 /H 1 /BPC 8 /CS /G ID xEIy EI Q");
    assert_eq!(v[0].inline_data.as_deref(), Some(&b"xEIy"[..]));
}

#[test]
fn operators_survive_junk() {
    let v = ops(b") q 1 0 0 1 5 5 cm Q");
    let names: Vec<&str> = v.iter().map(|o| o.operator.as_str()).collect();
    assert_eq!(names, ["q", "cm", "Q"]);
}
