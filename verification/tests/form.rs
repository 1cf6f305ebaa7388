use form_server::form::FormData;

fn form(name: &str, email: &str, message: &str) -> FormData {
    FormData { name: name.to_string(), email: email.to_string(), message: message.to_string() }
}

fn reason(name: &str, email: &str, message: &str) -> Option<String> {
    form(name, email, message).is_valid().err()
}

fn refused(text: &str) -> Option<String> {
    Some(text.to_string())
}

const REQUIRED: &str = "All fields are required.";
const NAME_LENGTH: &str = "Name is too long (max 100 characters).";
const EMAIL_LENGTH: &str = "Email is too long (max 100 characters).";
const MESSAGE_LENGTH: &str = "Message is too long (max 1000 characters).";
const EMAIL_FORMAT: &str = "Invalid email format.";
const UNSAFE: &str = "Message contains potentially unsafe content.";

#[test]
fn a_complete_submission_is_accepted() {
    assert_eq!(form("Ann", "ann@example.com", "hi").is_valid(), Ok(()));
}

#[test]
fn an_empty_name_is_a_missing_field() {
    assert_eq!(reason("", "ann@example.com", "hi"), refused(REQUIRED));
    assert_eq!(reason("", "a@b.c", "hello there"), refused(REQUIRED));
}

#[test]
fn an_empty_name_comes_before_every_other_fault() {
    let long = "m".repeat(2000);
    assert_eq!(reason("", "not an address", &long), refused(REQUIRED));
    assert_eq!(reason("", "a@b.c", "<script>"), refused(REQUIRED));
}

#[test]
fn any_blank_field_is_a_missing_field() {
    assert_eq!(reason("Ann", "", "hi"), refused(REQUIRED));
    assert_eq!(reason("Ann", "ann@example.com", ""), refused(REQUIRED));
    assert_eq!(reason("   ", "ann@example.com", "hi"), refused(REQUIRED));
    assert_eq!(reason("Ann", " \t\r\n", "hi"), refused(REQUIRED));
    assert_eq!(reason("Ann", "ann@example.com", "\u{a0}\u{2003}\u{3000}"), refused(REQUIRED));
}

#[test]
fn white_space_around_a_value_does_not_make_it_blank() {
    assert_eq!(form(" Ann ", "ann@example.com", "\thi\n").is_valid(), Ok(()));
    assert_eq!(form("\u{200b}", "ann@example.com", "hi").is_valid(), Ok(()));
}

#[test]
fn a_name_may_have_100_characters() {
    assert_eq!(form(&"n".repeat(100), "ann@example.com", "hi").is_valid(), Ok(()));
    assert_eq!(reason(&"n".repeat(101), "ann@example.com", "hi"), refused(NAME_LENGTH));
}

#[test]
fn an_email_may_have_100_characters() {
    let fits = format!("{}@b.c", "a".repeat(96));
    assert_eq!(fits.chars().count(), 100);
    assert_eq!(form("Ann", &fits, "hi").is_valid(), Ok(()));
    let long = format!("{}@b.c", "a".repeat(97));
    assert_eq!(reason("Ann", &long, "hi"), refused(EMAIL_LENGTH));
}

#[test]
fn a_message_of_1000_characters_is_accepted() {
    assert_eq!(form("Ann", "ann@example.com", &"m".repeat(1000)).is_valid(), Ok(()));
}

#[test]
fn a_message_of_1001_characters_is_rejected() {
    assert_eq!(reason("Ann", "ann@example.com", &"m".repeat(1001)), refused(MESSAGE_LENGTH));
}

#[test]
fn lengths_are_counted_in_characters() {
    assert_eq!(form("é".repeat(100).as_str(), "ann@example.com", "hi").is_valid(), Ok(()));
    assert_eq!(form("Ann", "ann@example.com", &"ü".repeat(1000)).is_valid(), Ok(()));
    assert_eq!(reason("Ann", "ann@example.com", &"ü".repeat(1001)), refused(MESSAGE_LENGTH));
}

#[test]
fn the_first_broken_rule_gives_the_reason() {
    let long_name = "n".repeat(101);
    let long_email = "e".repeat(101);
    let long_message = "<script>".repeat(200);
    assert_eq!(reason(&long_name, &long_email, &long_message), refused(NAME_LENGTH));
    assert_eq!(reason("Ann", &long_email, &long_message), refused(EMAIL_LENGTH));
    assert_eq!(reason("Ann", "abc", &long_message), refused(MESSAGE_LENGTH));
    assert_eq!(reason("Ann", "abc", "<script>"), refused(EMAIL_FORMAT));
    assert_eq!(reason("Ann", "a@b.c", "<script>"), refused(UNSAFE));
}

#[test]
fn the_shortest_address_is_accepted() {
    assert_eq!(form("Ann", "a@b.c", "hi").is_valid(), Ok(()));
}

#[test]
fn an_address_without_an_at_sign_is_rejected() {
    assert_eq!(reason("Ann", "abc", "hi"), refused(EMAIL_FORMAT));
    assert_eq!(reason("Ann", "a.b.c", "hi"), refused(EMAIL_FORMAT));
}

#[test]
fn an_address_without_a_dot_after_the_at_sign_is_rejected() {
    assert_eq!(reason("Ann", "a@b", "hi"), refused(EMAIL_FORMAT));
    assert_eq!(reason("Ann", "a.b@c", "hi"), refused(EMAIL_FORMAT));
}

#[test]
fn each_part_of_an_address_needs_a_character() {
    assert_eq!(reason("Ann", "@b.c", "hi"), refused(EMAIL_FORMAT));
    assert_eq!(reason("Ann", "a@.c", "hi"), refused(EMAIL_FORMAT));
    assert_eq!(reason("Ann", "a@b.", "hi"), refused(EMAIL_FORMAT));
    assert_eq!(reason("Ann", "@", "hi"), refused(EMAIL_FORMAT));
    assert_eq!(reason("Ann", ".", "hi"), refused(EMAIL_FORMAT));
    assert_eq!(reason("Ann", "@.", "hi"), refused(EMAIL_FORMAT));
}

#[test]
fn an_address_has_one_at_sign_and_no_white_space() {
    assert_eq!(reason("Ann", "a@@b.c", "hi"), refused(EMAIL_FORMAT));
    assert_eq!(reason("Ann", "a@b@c.d", "hi"), refused(EMAIL_FORMAT));
    assert_eq!(reason("Ann", "a@b.c@", "hi"), refused(EMAIL_FORMAT));
    assert_eq!(reason("Ann", "a b@c.d", "hi"), refused(EMAIL_FORMAT));
    assert_eq!(reason("Ann", "a@b.c ", "hi"), refused(EMAIL_FORMAT));
    assert_eq!(reason("Ann", " a@b.c", "hi"), refused(EMAIL_FORMAT));
    assert_eq!(reason("Ann", "a@b.c\n", "hi"), refused(EMAIL_FORMAT));
    assert_eq!(reason("Ann", "a@b\t.c", "hi"), refused(EMAIL_FORMAT));
    assert_eq!(reason("Ann", "a\u{a0}b@c.d", "hi"), refused(EMAIL_FORMAT));
    assert_eq!(reason("Ann", "a@b.c\u{2028}d", "hi"), refused(EMAIL_FORMAT));
    assert_eq!(reason("Ann", "a@b\u{3000}.c", "hi"), refused(EMAIL_FORMAT));
}

#[test]
fn an_address_may_have_several_dots_and_other_characters() {
    assert_eq!(form("Ann", "a@b.c.d", "hi").is_valid(), Ok(()));
    assert_eq!(form("Ann", "a.b@c.d", "hi").is_valid(), Ok(()));
    assert_eq!(form("Ann", "a@b..c", "hi").is_valid(), Ok(()));
    assert_eq!(form("Ann", ".@..c", "hi").is_valid(), Ok(()));
    assert_eq!(form("Ann", "ü@é.ö", "hi").is_valid(), Ok(()));
    assert_eq!(form("Ann", "a+b@c-d.e_f", "hi").is_valid(), Ok(()));
    assert_eq!(form("Ann", "a\u{200b}@b.c", "hi").is_valid(), Ok(()));
    assert_eq!(form("Ann", "<a>@b.c", "hi").is_valid(), Ok(()));
}

#[test]
fn a_message_with_script_markup_is_rejected() {
    assert_eq!(reason("Ann", "ann@example.com", "<script>"), refused(UNSAFE));
    assert_eq!(reason("Ann", "ann@example.com", "hi <script>alert(1)</script>"), refused(UNSAFE));
    assert_eq!(reason("Ann", "ann@example.com", "a<<script>"), refused(UNSAFE));
    assert_eq!(reason("Ann", "ann@example.com", "<scrip<script>"), refused(UNSAFE));
    assert_eq!(reason("Ann", "ann@example.com", &format!("{}<script>", "m".repeat(992))), refused(UNSAFE));
}

#[test]
fn only_the_exact_markup_is_unsafe() {
    assert_eq!(form("Ann", "ann@example.com", "<SCRIPT>").is_valid(), Ok(()));
    assert_eq!(form("Ann", "ann@example.com", "<script").is_valid(), Ok(()));
    assert_eq!(form("Ann", "ann@example.com", "script>").is_valid(), Ok(()));
    assert_eq!(form("Ann", "ann@example.com", "< script>").is_valid(), Ok(()));
    assert_eq!(form("Ann", "ann@example.com", "</script>").is_valid(), Ok(()));
    assert_eq!(form("<script>", "ann@example.com", "hi").is_valid(), Ok(()));
}

#[test]
fn checking_twice_gives_the_same_answer() {
    let bad = form("Ann", "abc", "hi");
    assert_eq!(bad.is_valid(), bad.is_valid());
    let good = form("Ann", "a@b.c", "hi");
    assert_eq!(good.is_valid(), good.is_valid());
}
