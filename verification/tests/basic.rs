use aformat::ArrayStringLike;
use aformat::BoundedString;
use aformat::CompileError;
use aformat::NamedArg;
use aformat::PosArg;
use aformat::ToArrayString;
use aformat::aformat;

fn pos(value: BoundedString, followed_by_comma: bool) -> PosArg {
    PosArg { value, followed_by_comma }
}

fn named(name: &str, value: BoundedString) -> NamedArg {
    NamedArg { name: String::from(name), value }
}

#[test]
pub fn basic_aformat() {
    let name = aformat::astr("Walter Hartwell White");
    let street_num = 308_u16;

    let scope = vec![
        named("name", name.to_arraystring()),
        named("street_num", street_num.to_arraystring()),
    ];
    let out = aformat(
        "My name is {name}, I live at {street_num} Negra Aroyo Lane.",
        &Vec::new(),
        &scope,
    )
    .unwrap();
    assert_eq!(
        out.as_str(),
        "My name is Walter Hartwell White, I live at 308 Negra Aroyo Lane."
    );
}

#[test]
pub fn expr_aformat() {
    let positional = vec![pos((2_u8 + 2).to_arraystring(), false)];
    let out = aformat("2 + 2 = {}", &positional, &Vec::new()).unwrap();
    assert_eq!(out.as_str(), "2 + 2 = 4");
}

#[test]
pub fn duplicated_arguments() {
    let num = 1_u8;

    let scope = vec![named("num", num.to_arraystring())];
    let positional = vec![pos(num.to_arraystring(), false)];
    let out = aformat("{num} {}", &positional, &scope).unwrap();
    assert_eq!(out.as_str(), "1 1");
}

#[test]
pub fn aformat_into() {
    let mut out_buf = <BoundedString as ArrayStringLike>::new(32);

    let age = 18_u8;
    let positional = vec![pos(age.to_arraystring(), false)];
    aformat::aformat_into(&mut out_buf, "You are {} years old!", &positional, &Vec::new()).unwrap();

    assert_eq!(out_buf.as_str(), "You are 18 years old!");
}

#[test]
pub fn astr() {
    const STR: &str = "Hello World";

    let const_val = aformat::astr(STR);
    let lit_val = aformat::astr("Hello World");

    for val in [const_val, lit_val] {
        assert_eq!(val.as_str(), "Hello World");
        assert_eq!(val.capacity(), val.len());
    }
}

#[test]
fn writer_rejects_small_destination() {
    let mut out_buf = <BoundedString as ArrayStringLike>::new(4);

    let age = 18_u8;
    let positional = vec![pos(age.to_arraystring(), false)];
    let r = aformat::aformat_into(&mut out_buf, "You are {} years old!", &positional, &Vec::new());

    assert_eq!(r, Err(CompileError::CapacityInsufficient));
    assert_eq!(out_buf.as_str(), "");
    assert_eq!(out_buf.len(), 0);
    assert_eq!(out_buf.capacity(), 4);
}

#[test]
fn literal_template_round_trips() {
    let out = aformat("no placeholders at all", &Vec::new(), &Vec::new()).unwrap();
    assert_eq!(out.as_str(), "no placeholders at all");
    assert_eq!(out.capacity(), "no placeholders at all".len());
    assert_eq!(out.len(), out.capacity());
}

#[test]
fn empty_template_is_legal() {
    let out = aformat("", &Vec::new(), &Vec::new()).unwrap();
    assert_eq!(out.as_str(), "");
    assert_eq!(out.capacity(), 0);
}

#[test]
fn positional_and_named_agree() {
    let positional = vec![pos(7_u8.to_arraystring(), false)];
    let by_position = aformat("{}", &positional, &Vec::new()).unwrap();

    let scope = vec![named("x", 7_u8.to_arraystring())];
    let by_name = aformat("{x}", &Vec::new(), &scope).unwrap();

    assert_eq!(by_position.as_str(), by_name.as_str());
    assert_eq!(by_position.capacity(), by_name.capacity());
    assert_eq!(by_position.as_str(), "7");
}

#[test]
fn capacity_is_literals_plus_declared_maxima() {
    // "ab" and "c" total 3 literal characters; a u8 declares a maximum of 3.
    let positional = vec![pos(7_u8.to_arraystring(), false)];
    let out = aformat("ab{}c", &positional, &Vec::new()).unwrap();
    assert_eq!(out.as_str(), "ab7c");
    assert_eq!(out.capacity(), 6);
    assert!(out.len() <= out.capacity());
}

#[test]
fn unterminated_placeholder_is_fatal() {
    let r = aformat("oops {", &Vec::new(), &Vec::new());
    assert_eq!(r.unwrap_err(), CompileError::UnterminatedPlaceholder);
}

#[test]
fn missing_argument_is_fatal() {
    let r = aformat("{} and {}", &vec![pos(1_u8.to_arraystring(), true)], &Vec::new());
    assert_eq!(r.unwrap_err(), CompileError::MissingArgument);
}

#[test]
fn missing_separator_is_fatal() {
    let positional = vec![
        pos(1_u8.to_arraystring(), false),
        pos(2_u8.to_arraystring(), false),
    ];
    let r = aformat("{} {}", &positional, &Vec::new());
    assert_eq!(r.unwrap_err(), CompileError::MissingSeparator);
}

#[test]
fn unknown_argument_is_fatal() {
    let r = aformat("{nope}", &Vec::new(), &Vec::new());
    assert_eq!(r.unwrap_err(), CompileError::UnknownArgument);
}

#[test]
fn integer_renderings_are_decimal() {
    assert_eq!(0_u8.to_arraystring().as_str(), "0");
    assert_eq!(255_u8.to_arraystring().as_str(), "255");
    assert_eq!(255_u8.to_arraystring().capacity(), 3);
    assert_eq!(65535_u16.to_arraystring().as_str(), "65535");
    assert_eq!(65535_u16.to_arraystring().capacity(), 5);
    assert_eq!(4294967295_u32.to_arraystring().as_str(), "4294967295");
    assert_eq!(4294967295_u32.to_arraystring().capacity(), 10);
    assert_eq!((-2147483648_i32).to_arraystring().as_str(), "-2147483648");
    assert_eq!((-2147483648_i32).to_arraystring().capacity(), 11);
    assert_eq!(12_i32.to_arraystring().as_str(), "12");
    assert_eq!(true.to_arraystring().as_str(), "true");
    assert_eq!(false.to_arraystring().as_str(), "false");
    assert_eq!(false.to_arraystring().capacity(), 5);
}

#[test]
fn capstr_caps_the_length() {
    let short = aformat::CapStr::<256>("abc");
    assert_eq!(short.truncated(), "abc");

    // Truncation keeps strictly fewer characters than the declared bound.
    let long = aformat::CapStr::<5>("Hello World");
    assert_eq!(long.truncated(), "Hell");
    let rendered = long.to_arraystring();
    assert_eq!(rendered.as_str(), "Hell");
    assert_eq!(rendered.capacity(), 5);

    let zero = aformat::CapStr::<0>("abc");
    assert_eq!(zero.truncated(), "");
}

#[test]
fn capstr_formats_like_a_string() {
    let name = aformat::CapStr::<256>("Skyler");
    let scope = vec![named("name", name.to_arraystring())];
    let out = aformat("Hello {name}!", &Vec::new(), &scope).unwrap();
    assert_eq!(out.as_str(), "Hello Skyler!");
}

#[test]
fn writer_appends_after_existing_text() {
    let mut out_buf = <BoundedString as ArrayStringLike>::new(32);
    out_buf.push_str("Note: ");
    let positional = vec![pos(9_u8.to_arraystring(), false)];
    aformat::aformat_into(&mut out_buf, "{} lives", &positional, &Vec::new()).unwrap();
    assert_eq!(out_buf.as_str(), "Note: 9 lives");
}

#[test]
fn no_escape_syntax_for_braces() {
    // A doubled brace is not an escape: the first `{` opens a placeholder
    // whose name is `{`, and no such name is in scope.
    let r = aformat("{{}}", &Vec::new(), &Vec::new());
    assert_eq!(r.unwrap_err(), CompileError::UnknownArgument);
}

#[test]
fn parse_gives_each_occurrence_its_own_slot() {
    let positional = vec![pos(1_u8.to_arraystring(), false)];
    let args = aformat::Arguments::parse("{num} {}", &positional).unwrap();

    assert_eq!(args.pieces.len(), 5);
    assert_eq!(args.bindings.len(), 2);
    assert_eq!(args.str_base_len, 1);

    let slots: Vec<usize> = args.pieces.iter().filter_map(|p| p.as_ident()).collect();
    assert_eq!(slots, vec![0, 1]);
    assert!(matches!(
        args.pieces[1].as_expr(&args),
        Some(aformat::ArgExpr::Named(_))
    ));
    assert!(matches!(
        args.pieces[3].as_expr(&args),
        Some(aformat::ArgExpr::Value(_))
    ));
}
