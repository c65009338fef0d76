//! The generation session: a configuration naming the brand and digit
//! length, a generator that accumulates a batch of cards, and the
//! console lines handed to the output sink.

use vstd::prelude::*;
use vstd::string::StringExecFns;
use crate::arith::{digits, pow10};
use crate::card::{Card, CardType};
use crate::luhn::luhn_valid;
use crate::rng::fresh_rng;
use crate::text::{dec_digits, push_decimal};

verus! {

/// Where a batch is delivered: the console, or a file at a path. The
/// file sink is a declared extension point the library leaves to its
/// embedder.
pub enum GeneratorOutput {
    STD,
    FILE(String),
}

/// Default digit length for a brand: fifteen for American Express,
/// sixteen for every other brand, custom prefixes included.
pub open spec fn default_length_spec(c: CardType) -> int {
    match c {
        CardType::AmericanExpress(_) => 15,
        _ => 16,
    }
}

/// The brand's default digit length.
pub fn default_length(c: &CardType) -> (r: i64)
    ensures
        r as int == default_length_spec(*c),
{
    match c {
        CardType::AmericanExpress(_) => 15,
        _ => 16,
    }
}

/// Session configuration: the brand to generate and the total digit
/// length requested for it.
pub struct Config {
    pub ctype: CardType,
    pub length: i64,
}

impl Default for Config {
    /// Visa at its default length.
    fn default() -> (r: Config)
        ensures
            r.ctype == CardType::Visa,
            r.length == 16,
    {
        Config { ctype: CardType::Visa, length: 16 }
    }
}

impl Config {
    /// Builder-style: selects the brand and resets the length to that
    /// brand's default.
    pub fn set_card_type(self, ctype: CardType) -> (r: Self)
        ensures
            r.ctype == ctype,
            r.length == default_length_spec(ctype),
    {
        let length = default_length(&ctype);
        Config { ctype, length }
    }

    /// Builder-style: overrides the requested digit length.
    pub fn set_length(self, length: i64) -> (r: Self)
        ensures
            r.ctype == self.ctype,
            r.length == length,
    {
        Config { ctype: self.ctype, length }
    }
}

/// What every card of a batch generated for `ctype` satisfies: the
/// brand's default length, the issuer prefix in front, a random
/// suffix of exactly the remaining digits (its leading digit
/// nonzero), and a number the Luhn checksum accepts.
pub open spec fn generated_ok(c: Card, ctype: CardType) -> bool {
    let slen = c.length - digits(ctype.prefix_spec());
    &&& c.ctype == ctype
    &&& c.length == default_length_spec(ctype)
    &&& c.number matches Some(v) && v > 0 && digits(v as int) == c.length && (v as int) / pow10(
        slen,
    ) == ctype.prefix_spec() && pow10(slen - 1) <= (v as int) % pow10(slen) < pow10(slen)
        && luhn_valid(v as int)
}

/// Drives repeated generation: owns the produced cards, the random
/// generator, and the configuration.
pub struct CardGenerator {
    pub cards: Vec<Card>,
    pub rng: rand::rngs::ThreadRng,
    pub config: Config,
}

impl CardGenerator {
    /// A generator with no cards produced yet.
    pub fn new(config: Config) -> (r: CardGenerator)
        ensures
            r.cards@.len() == 0,
            r.config == config,
    {
        let cards: Vec<Card> = Vec::new();
        CardGenerator { cards, rng: fresh_rng(), config }
    }

    /// Appends `amount` freshly generated cards of brand `ctype` to
    /// the batch, each at the brand's default length, in generation
    /// order and with duplicates allowed. The batch is aborted at the
    /// first failed card: cards generated before it are kept, and the
    /// error is returned. A prefix too long for the brand's length
    /// fails at once with `Length Too Short`.
    #[verifier::loop_isolation(false)]
    pub fn generate_type(&mut self, ctype: CardType, amount: i64) -> (r: Result<(), String>)
        requires
            ctype.prefix_spec() >= 1,
        ensures
            final(self).config == old(self).config,
            old(self).cards@.len() <= final(self).cards@.len(),
            amount <= 0 ==> r is Ok && final(self).cards@ == old(self).cards@,
            r is Ok && amount > 0 ==> final(self).cards@.len() == old(self).cards@.len()
                + amount,
            forall|i: int|
                0 <= i < old(self).cards@.len() ==> final(self).cards@[i] == old(
                    self,
                ).cards@[i],
            forall|i: int|
                old(self).cards@.len() <= i < final(self).cards@.len() ==> generated_ok(
                    #[trigger] final(self).cards@[i],
                    ctype,
                ),
            amount > 0 && default_length_spec(ctype) - digits(ctype.prefix_spec()) < 1 ==> (
            r matches Err(e) && e@ == "Length Too Short"@ && final(self).cards@ == old(
                self,
            ).cards@),
            (amount > 0 && default_length_spec(ctype) - digits(ctype.prefix_spec()) >= 1 && r
                is Err) ==> (r matches Err(e) && e@ == "retry limit reached"@),
    {
        let length = default_length(&ctype);
        let mut i: i64 = 0;
        while i < amount
            invariant
                0 <= i,
                amount > 0 ==> i <= amount,
                amount <= 0 ==> i == 0,
                self.config == old(self).config,
                self.cards@.len() == old(self).cards@.len() + i,
                default_length_spec(ctype) - digits(ctype.prefix_spec()) < 1 ==> i == 0,
                forall|j: int|
                    0 <= j < old(self).cards@.len() ==> self.cards@[j] == old(self).cards@[j],
                forall|j: int|
                    old(self).cards@.len() <= j < self.cards@.len() ==> generated_ok(
                        #[trigger] self.cards@[j],
                        ctype,
                    ),
            decreases amount - i,
        {
            let mut card = Card::from(length, ctype);
            match card.generate_number(&mut self.rng) {
                Ok(()) => {
                    self.cards.push(card);
                },
                Err(e) => {
                    return Err(e);
                },
            }
            i = i + 1;
        }
        Ok(())
    }

    /// One generated card of the configured brand and length, handed
    /// straight to the caller without joining the batch.
    pub fn next_card(&mut self) -> (r: Result<Card, String>)
        requires
            old(self).config.ctype.prefix_spec() >= 1,
            old(self).config.length <= 18,
        ensures
            final(self).cards@ == old(self).cards@,
            final(self).config == old(self).config,
            ({
                let slen = old(self).config.length - digits(old(self).config.ctype.prefix_spec());
                &&& slen < 1 ==> (r matches Err(e) && e@ == "Length Too Short"@)
                &&& (slen >= 1 && r is Err) ==> (r matches Err(e) && e@
                    == "retry limit reached"@)
                &&& r matches Ok(c) ==> slen >= 1 && c.ctype == old(self).config.ctype
                    && c.length == old(self).config.length && (c.number matches Some(v) && v > 0
                    && digits(v as int) == c.length && v as int / pow10(slen) == old(
                    self,
                ).config.ctype.prefix_spec() && pow10(slen - 1) <= (v as int) % pow10(slen)
                    < pow10(slen) && luhn_valid(v as int))
            }),
    {
        let mut card = Card::from(self.config.length, self.config.ctype);
        match card.generate_number(&mut self.rng) {
            Ok(()) => Ok(card),
            Err(e) => Err(e),
        }
    }

    /// The console line for card `i` of the batch.
    pub open spec fn line_spec(i: int, c: Card) -> Seq<char> {
        "card "@ + dec_digits(i) + ": ("@ + c.render_spec() + ")"@
    }

    /// Renders every accumulated card as its console line, in
    /// insertion order; the sink only prints them.
    #[verifier::loop_isolation(false)]
    pub fn render_lines(&self) -> (r: Vec<String>)
        ensures
            r@.len() == self.cards@.len(),
            forall|i: int|
                0 <= i < r@.len() ==> (#[trigger] r@[i])@ == CardGenerator::line_spec(
                    i,
                    self.cards@[i],
                ),
    {
        let mut out: Vec<String> = Vec::new();
        let mut i: usize = 0;
        while i < self.cards.len()
            invariant
                0 <= i <= self.cards@.len(),
                out@.len() == i,
                forall|j: int|
                    0 <= j < i ==> (#[trigger] out@[j])@ == CardGenerator::line_spec(
                        j,
                        self.cards@[j],
                    ),
            decreases self.cards@.len() - i,
        {
            let mut line = String::from_str("card ");
            push_decimal(i as u64, &mut line);
            line.append(": (");
            let body = self.cards[i].render();
            line.append(body.as_str());
            line.append(")");
            proof {
                assert(line@ =~= CardGenerator::line_spec(i as int, self.cards@[i as int]));
            }
            out.push(line);
            i = i + 1;
        }
        out
    }
}

} // verus!
