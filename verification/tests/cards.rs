use cardgen::card::{AmericanExpressCard, Card, CardType};
use cardgen::generator::{CardGenerator, Config, GeneratorOutput};
use cardgen::luhn::luhn_check;
use cardgen::rng::fresh_rng;
use cardgen::card::numlength;
use cardgen::text::parse_i64;

fn card_with_number(number: i64, length: i64, ctype: CardType) -> Card {
    let mut card = Card::from(length, ctype);
    card.number = Some(number);
    card
}

#[test]
fn digit_count_of_zero_is_one() {
    assert_eq!(numlength(0), 1);
}

#[test]
fn digit_count_of_small_number() {
    assert_eq!(numlength(123), 3);
}

#[test]
fn digit_count_of_twelve_digits() {
    assert_eq!(numlength(999999999999), 12);
}

#[test]
fn invalid_fixture_is_rejected() {
    let card = card_with_number(79927398710, 11, CardType::Visa);
    assert_eq!(card.is_valid(), Ok(false));
}

#[test]
fn odd_length_fixture_valid_under_this_checksum() {
    // With the preserved parity quirk, the valid completion of the
    // classic 79927398710..79927398719 family is the digit 2.
    let card = card_with_number(79927398712, 11, CardType::Visa);
    assert_eq!(card.is_valid(), Ok(true));
}

#[test]
fn sixteen_digit_visa_fixture_is_valid() {
    let card = card_with_number(4111111111111111, 16, CardType::Visa);
    assert_eq!(card.is_valid(), Ok(true));
}

#[test]
fn fifteen_digit_american_express_fixture_is_valid() {
    // An odd digit count, but the embedded 3-then-7 prefix flips the
    // alternation, so the real-world AmEx test number is accepted.
    let ctype = CardType::AmericanExpress(AmericanExpressCard::T7);
    let card = card_with_number(371449635398431, 15, ctype);
    assert_eq!(card.is_valid(), Ok(true));
}

#[test]
fn validity_check_without_number_fails() {
    let card = Card::from(16, CardType::Visa);
    assert_eq!(card.is_valid(), Err("num is not set".to_string()));
}

#[test]
fn validity_check_is_idempotent() {
    let card = card_with_number(4111111111111111, 16, CardType::Visa);
    let first = card.is_valid();
    let second = card.is_valid();
    assert_eq!(first, second);
    assert_eq!(first, Ok(true));
}

#[test]
fn luhn_check_matches_card_validity() {
    assert!(luhn_check(4111111111111111));
    assert!(!luhn_check(4111111111111112));
    assert!(!luhn_check(79927398710));
}

#[test]
fn parse_visa_aliases() {
    assert_eq!(CardType::from_string(&String::from("visa")), Ok(CardType::Visa));
    assert_eq!(CardType::from_string(&String::from("v")), Ok(CardType::Visa));
    assert_eq!(CardType::from_string(&String::from("VISA")), Ok(CardType::Visa));
}

#[test]
fn parse_master_aliases() {
    assert_eq!(CardType::from_string(&String::from("Master")), Ok(CardType::Master));
    assert_eq!(CardType::from_string(&String::from("m")), Ok(CardType::Master));
}

#[test]
fn parse_american_express_aliases() {
    let t4 = CardType::AmericanExpress(AmericanExpressCard::T4);
    let t7 = CardType::AmericanExpress(AmericanExpressCard::T7);
    assert_eq!(CardType::from_string(&String::from("american_express_4")), Ok(t4));
    assert_eq!(CardType::from_string(&String::from("am_4")), Ok(t4));
    assert_eq!(CardType::from_string(&String::from("AM_7")), Ok(t7));
    assert_eq!(CardType::from_string(&String::from("AmericanExpress_7")), Ok(t7));
}

#[test]
fn parse_discover_aliases() {
    assert_eq!(CardType::from_string(&String::from("discover")), Ok(CardType::Discover));
    assert_eq!(CardType::from_string(&String::from("D")), Ok(CardType::Discover));
}

#[test]
fn parse_integer_token_gives_custom_prefix() {
    assert_eq!(CardType::from_string(&String::from("9999")), Ok(CardType::Custom(9999)));
    assert_eq!(CardType::from_string(&String::from("+5")), Ok(CardType::Custom(5)));
    assert_eq!(CardType::from_string(&String::from("-12")), Ok(CardType::Custom(-12)));
}

#[test]
fn parse_rejects_unknown_tokens() {
    let err = Err("Invalid Card Type".to_string());
    assert_eq!(CardType::from_string(&String::from("notacard")), err);
    assert_eq!(CardType::from_string(&String::from("")), err);
    assert_eq!(CardType::from_string(&String::from("12a")), err);
    assert_eq!(CardType::from_string(&String::from("99999999999999999999")), err);
}

#[test]
fn parse_i64_handles_bounds() {
    assert_eq!(parse_i64("9223372036854775807"), Some(i64::MAX));
    assert_eq!(parse_i64("9223372036854775808"), None);
    assert_eq!(parse_i64("-9223372036854775808"), Some(i64::MIN));
    assert_eq!(parse_i64("-9223372036854775809"), None);
    assert_eq!(parse_i64("007"), Some(7));
    assert_eq!(parse_i64("+"), None);
    assert_eq!(parse_i64(""), None);
}

#[test]
fn issuer_prefixes() {
    assert_eq!(CardType::Visa.int_val(), 4);
    assert_eq!(CardType::Master.int_val(), 5);
    assert_eq!(CardType::AmericanExpress(AmericanExpressCard::T4).int_val(), 34);
    assert_eq!(CardType::AmericanExpress(AmericanExpressCard::T7).int_val(), 37);
    assert_eq!(CardType::Discover.int_val(), 6);
    assert_eq!(CardType::Custom(424242).int_val(), 424242);
}

#[test]
fn generated_visa_number_has_prefix_length_and_checksum() {
    let mut rng = fresh_rng();
    let mut card = Card::from(16, CardType::Visa);
    assert_eq!(card.generate_number(&mut rng), Ok(()));
    let number = card.number.expect("number was generated");
    let text = number.to_string();
    assert_eq!(text.len(), 16);
    assert!(text.starts_with('4'));
    // The random suffix fills all fifteen remaining digits, so its
    // leading digit is never zero.
    assert_ne!(text.as_bytes()[1], b'0');
    assert_eq!(card.is_valid(), Ok(true));
}

#[test]
fn generated_american_express_number_has_prefix_and_length() {
    let mut rng = fresh_rng();
    let ctype = CardType::AmericanExpress(AmericanExpressCard::T7);
    let mut card = Card::from(15, ctype);
    assert_eq!(card.generate_number(&mut rng), Ok(()));
    let text = card.number.expect("number was generated").to_string();
    assert_eq!(text.len(), 15);
    assert!(text.starts_with("37"));
    assert_eq!(card.is_valid(), Ok(true));
}

#[test]
fn generated_custom_prefix_number_keeps_the_prefix() {
    let mut rng = fresh_rng();
    let mut card = Card::from(10, CardType::Custom(99));
    assert_eq!(card.generate_number(&mut rng), Ok(()));
    let text = card.number.expect("number was generated").to_string();
    assert_eq!(text.len(), 10);
    assert!(text.starts_with("99"));
    assert_eq!(card.is_valid(), Ok(true));
}

#[test]
fn generation_fails_when_length_cannot_hold_the_prefix() {
    let mut rng = fresh_rng();
    let mut card = Card::from(1, CardType::Visa);
    assert_eq!(card.generate_number(&mut rng), Err("Length Too Short".to_string()));
    assert_eq!(card.number, None);

    let mut long_prefix = Card::from(5, CardType::Custom(123456));
    assert_eq!(long_prefix.generate_number(&mut rng), Err("Length Too Short".to_string()));

    let mut zero_length = Card::from(0, CardType::Visa);
    assert_eq!(zero_length.generate_number(&mut rng), Err("Length Too Short".to_string()));
    assert_eq!(zero_length.number, None);

    let mut negative_length = Card::from(-3, CardType::Discover);
    assert_eq!(negative_length.generate_number(&mut rng), Err("Length Too Short".to_string()));
}

#[test]
fn session_yields_the_requested_batch() {
    let config = Config::default().set_card_type(CardType::Visa);
    let mut generator = CardGenerator::new(config);
    assert_eq!(generator.generate_type(CardType::Visa, 5), Ok(()));
    assert_eq!(generator.cards.len(), 5);
    for card in &generator.cards {
        assert_eq!(card.is_valid(), Ok(true));
        let text = card.number.expect("number was generated").to_string();
        assert_eq!(text.len(), 16);
        assert!(text.starts_with('4'));
    }
}

#[test]
fn session_batches_accumulate_in_order() {
    let mut generator = CardGenerator::new(Config::default());
    assert_eq!(generator.generate_type(CardType::Visa, 2), Ok(()));
    assert_eq!(generator.generate_type(CardType::Discover, 1), Ok(()));
    assert_eq!(generator.cards.len(), 3);
    assert_eq!(generator.cards[0].ctype, CardType::Visa);
    assert_eq!(generator.cards[1].ctype, CardType::Visa);
    assert_eq!(generator.cards[2].ctype, CardType::Discover);
}

#[test]
fn session_aborts_on_an_impossible_brand() {
    let mut generator = CardGenerator::new(Config::default());
    let too_long = CardType::Custom(99999999999999999);
    assert_eq!(
        generator.generate_type(too_long, 3),
        Err("Length Too Short".to_string())
    );
    assert_eq!(generator.cards.len(), 0);
}

#[test]
fn next_card_follows_the_configuration() {
    let amex = CardType::AmericanExpress(AmericanExpressCard::T4);
    let mut generator = CardGenerator::new(Config::default().set_card_type(amex));
    let card = generator.next_card().expect("a card is generated");
    assert_eq!(card.ctype, amex);
    assert_eq!(card.length, 15);
    let text = card.number.expect("number was generated").to_string();
    assert_eq!(text.len(), 15);
    assert!(text.starts_with("34"));
    assert_eq!(card.is_valid(), Ok(true));
    assert_eq!(generator.cards.len(), 0);
}

#[test]
fn default_configuration_is_visa_sixteen() {
    let config = Config::default();
    assert_eq!(config.ctype, CardType::Visa);
    assert_eq!(config.length, 16);
}

#[test]
fn configuration_builders() {
    let amex = CardType::AmericanExpress(AmericanExpressCard::T4);
    let config = Config::default().set_card_type(amex);
    assert_eq!(config.ctype, amex);
    assert_eq!(config.length, 15);
    let config = config.set_length(18);
    assert_eq!(config.length, 18);
    assert_eq!(config.ctype, amex);
}

#[test]
fn display_names() {
    assert_eq!(CardType::Visa.display_name(), "Visa");
    assert_eq!(CardType::Master.display_name(), "Master");
    assert_eq!(
        CardType::AmericanExpress(AmericanExpressCard::T4).display_name(),
        "American Express v4"
    );
    assert_eq!(
        CardType::AmericanExpress(AmericanExpressCard::T7).display_name(),
        "American Express v7"
    );
    assert_eq!(CardType::Discover.display_name(), "discover");
    assert_eq!(CardType::Custom(123).display_name(), "custom(123)");
    assert_eq!(CardType::Custom(-7).display_name(), "custom(-7)");
    assert_eq!(
        CardType::Custom(i64::MIN).display_name(),
        "custom(-9223372036854775808)"
    );
}

#[test]
fn output_destinations_carry_their_target() {
    let console = GeneratorOutput::STD;
    let file = GeneratorOutput::FILE(String::from("cards.txt"));
    assert!(matches!(console, GeneratorOutput::STD));
    assert!(matches!(file, GeneratorOutput::FILE(path) if path == "cards.txt"));
}

#[test]
fn card_rendering() {
    let unset = Card::from(16, CardType::Visa);
    assert_eq!(unset.render(), "type: Visa, number: None_Generated");
    let set = card_with_number(4111111111111111, 16, CardType::Visa);
    assert_eq!(set.render(), "type: Visa, number: 4111111111111111");
}

#[test]
fn rendered_lines_carry_index_and_card() {
    let mut generator = CardGenerator::new(Config::default());
    generator.cards.push(card_with_number(4111111111111111, 16, CardType::Visa));
    generator.cards.push(Card::from(16, CardType::Discover));
    let lines = generator.render_lines();
    assert_eq!(lines.len(), 2);
    assert_eq!(lines[0], "card 0: (type: Visa, number: 4111111111111111)");
    assert_eq!(lines[1], "card 1: (type: discover, number: None_Generated)");
}
