//! The card-type model and the Luhn engine: brands with their issuer
//! prefixes, textual parsing of a brand token, and the random search
//! for a checksum-valid number of a requested digit length.

use vstd::prelude::*;
use vstd::string::StrSliceExecFns;
use vstd::string::StringExecFns;
use vstd::arithmetic::div_mod::lemma_fundamental_div_mod_converse;
use crate::arith::{
    pow10, digits, lemma_digits_bounds, lemma_digits_of_range, lemma_digits_le,
    lemma_digits_nonneg, lemma_pow10_adds, lemma_pow10_monotone, lemma_pow10_pos,
};
use crate::luhn::{luhn_valid, luhn_check, reversed, lemma_rev_digits_bound};
use crate::rng::rand_range;
use crate::text::{
    lower_seq, i64_token, int_str, parse_i64, eq_ignore_ascii_case, i64_to_string,
};

verus! {

#[derive(Clone, Copy, Debug, PartialEq, Eq, Structural)]
pub enum AmericanExpressCard {
    T4,
    T7,
}

#[derive(Clone, Copy, Debug, PartialEq, Eq, Structural)]
pub enum CardType {
    Visa,
    Master,
    AmericanExpress(AmericanExpressCard),
    Discover,
    Custom(i64),
}

impl CardType {
    /// The issuer prefix this brand stands for.
    pub open spec fn prefix_spec(&self) -> int {
        match self {
            CardType::Visa => 4,
            CardType::Master => 5,
            CardType::AmericanExpress(am) => match am {
                AmericanExpressCard::T4 => 34,
                AmericanExpressCard::T7 => 37,
            },
            CardType::Discover => 6,
            CardType::Custom(v) => *v as int,
        }
    }

    /// The card type a token denotes: an alias from the fixed table,
    /// compared ASCII-case-insensitively, or else any integer, which
    /// names a custom prefix.
    pub open spec fn parse_spec(s: Seq<char>) -> Option<CardType> {
        let l = lower_seq(s);
        if l == "visa"@ || l == "v"@ {
            Some(CardType::Visa)
        } else if l == "master"@ || l == "m"@ {
            Some(CardType::Master)
        } else if l == "american_express_4"@ || l == "americanexpress_4"@ || l == "american_4"@
            || l == "am_4"@ {
            Some(CardType::AmericanExpress(AmericanExpressCard::T4))
        } else if l == "american_express_7"@ || l == "americanexpress_7"@ || l == "american_7"@
            || l == "am_7"@ {
            Some(CardType::AmericanExpress(AmericanExpressCard::T7))
        } else if l == "discover"@ || l == "d"@ {
            Some(CardType::Discover)
        } else {
            match i64_token(s) {
                Some(v) => Some(CardType::Custom(v as i64)),
                None => None,
            }
        }
    }

    /// Resolves a user-supplied brand token; unknown tokens that are
    /// not integers are rejected.
    pub fn from_string(v: &String) -> (r: Result<CardType, String>)
        ensures
            match CardType::parse_spec(v@) {
                Some(ct) => r == Ok::<CardType, String>(ct),
                None => r matches Err(e) && e@ == "Invalid Card Type"@,
            },
    {
        let s = v.as_str();
        if eq_ignore_ascii_case(s, "visa") || eq_ignore_ascii_case(s, "v") {
            Ok(CardType::Visa)
        } else if eq_ignore_ascii_case(s, "master") || eq_ignore_ascii_case(s, "m") {
            Ok(CardType::Master)
        } else if eq_ignore_ascii_case(s, "american_express_4")
            || eq_ignore_ascii_case(s, "americanexpress_4")
            || eq_ignore_ascii_case(s, "american_4")
            || eq_ignore_ascii_case(s, "am_4") {
            Ok(CardType::AmericanExpress(AmericanExpressCard::T4))
        } else if eq_ignore_ascii_case(s, "american_express_7")
            || eq_ignore_ascii_case(s, "americanexpress_7")
            || eq_ignore_ascii_case(s, "american_7")
            || eq_ignore_ascii_case(s, "am_7") {
            Ok(CardType::AmericanExpress(AmericanExpressCard::T7))
        } else if eq_ignore_ascii_case(s, "discover") || eq_ignore_ascii_case(s, "d") {
            Ok(CardType::Discover)
        } else {
            match parse_i64(s) {
                Some(x) => Ok(CardType::Custom(x)),
                None => Err(String::from_str("Invalid Card Type")),
            }
        }
    }

    /// Numeric issuer prefix of the brand.
    pub fn int_val(&self) -> (r: i64)
        ensures
            r as int == self.prefix_spec(),
    {
        match self {
            CardType::Visa => 4,
            CardType::Master => 5,
            CardType::AmericanExpress(am) => match am {
                AmericanExpressCard::T4 => 34,
                AmericanExpressCard::T7 => 37,
            },
            CardType::Discover => 6,
            CardType::Custom(v) => *v,
        }
    }

    /// The human-readable label of the brand; presentation only, never
    /// parsed back.
    pub open spec fn display_name_spec(&self) -> Seq<char> {
        match self {
            CardType::Visa => "Visa"@,
            CardType::Master => "Master"@,
            CardType::AmericanExpress(am) => match am {
                AmericanExpressCard::T4 => "American Express v4"@,
                AmericanExpressCard::T7 => "American Express v7"@,
            },
            CardType::Discover => "discover"@,
            CardType::Custom(v) => "custom("@ + int_str(*v as int) + ")"@,
        }
    }

    /// Renders the human-readable label of the brand.
    pub fn display_name(&self) -> (r: String)
        ensures
            r@ == self.display_name_spec(),
    {
        match self {
            CardType::Visa => String::from_str("Visa"),
            CardType::Master => String::from_str("Master"),
            CardType::AmericanExpress(am) => match am {
                AmericanExpressCard::T4 => String::from_str("American Express v4"),
                AmericanExpressCard::T7 => String::from_str("American Express v7"),
            },
            CardType::Discover => String::from_str("discover"),
            CardType::Custom(v) => {
                let mut out = String::from_str("custom(");
                let num = i64_to_string(*v);
                out.append(num.as_str());
                out.append(")");
                proof {
                    assert(out@ =~= "custom("@ + int_str(*v as int) + ")"@);
                }
                out
            },
        }
    }
}

/// One generated card: a brand, a requested digit length, and the
/// number once the generator has filled it in.
pub struct Card {
    pub number: Option<i64>,
    pub length: i64,
    pub ctype: CardType,
}

/// Everything `is_valid` promises of its result on a given card.
pub open spec fn is_valid_post(c: Card, r: Result<bool, String>) -> bool {
    match c.number {
        Some(n) => r == Ok::<bool, String>(luhn_valid(n as int)),
        None => r matches Err(e) && e@ == "num is not set"@,
    }
}

/// Two validity checks of the same stored number always agree: the
/// check is a pure function of the card's number.
pub proof fn lemma_is_valid_idempotent(c: Card, r1: Result<bool, String>, r2: Result<
    bool,
    String,
>)
    requires
        c.number is Some,
        is_valid_post(c, r1),
        is_valid_post(c, r2),
    ensures
        r1 == r2,
{
}

impl Card {
    /// A fresh card of the given digit length and brand, its number
    /// not yet generated.
    pub fn from(length: i64, card: CardType) -> (r: Card)
        ensures
            r.length == length,
            r.ctype == card,
            r.number is None,
    {
        Card { length, ctype: card, number: None }
    }

    /// Luhn validity of the stored number; an error when none is set.
    /// The bound on the reversal keeps the digit-reversed intermediate
    /// value inside `i64`.
    pub fn is_valid(&self) -> (r: Result<bool, String>)
        requires
            self.number matches Some(n) ==> reversed(n as int) <= i64::MAX,
        ensures
            is_valid_post(*self, r),
    {
        match self.number {
            Some(i) => Ok(luhn_check(i)),
            None => Err(String::from_str("num is not set")),
        }
    }

    /// Fills the number with a random Luhn-valid value: exactly
    /// `length` digits, beginning with the issuer prefix, the random
    /// suffix drawn anew until the checksum accepts it. A length that
    /// cannot hold the prefix and at least one suffix digit fails with
    /// `Length Too Short`. The search gives up after a retry limit
    /// that a sound generator never reaches in practice; on any error
    /// the card is left untouched.
    #[verifier::loop_isolation(false)]
    #[verifier::rlimit(50)]
    pub fn generate_number(&mut self, rng: &mut rand::rngs::ThreadRng) -> (r: Result<(), String>)
        requires
            old(self).ctype.prefix_spec() >= 1,
            old(self).length <= 18,
        ensures
            final(self).ctype == old(self).ctype,
            final(self).length == old(self).length,
            r is Err ==> final(self).number == old(self).number,
            ({
                let slen = old(self).length - digits(old(self).ctype.prefix_spec());
                &&& slen < 1 ==> (r matches Err(e) && e@ == "Length Too Short"@)
                &&& (slen >= 1 && r is Err) ==> (r matches Err(e) && e@
                    == "retry limit reached"@)
                &&& r is Ok ==> slen >= 1 && (final(self).number matches Some(v)
                    && digits(v as int) == old(self).length && v as int / pow10(slen)
                    == old(self).ctype.prefix_spec() && pow10(slen - 1) <= (v as int) % pow10(
                    slen,
                ) < pow10(slen) && luhn_valid(v as int) && v > 0)
            }),
    {
        let prefix = self.ctype.int_val();
        let plen = numlength(prefix);
        proof {
            lemma_digits_bounds(prefix as int);
        }
        if self.length < 1 {
            return Err(String::from_str("Length Too Short"));
        }
        let glength = self.length - plen;
        if glength < 1 {
            return Err(String::from_str("Length Too Short"));
        }
        let ghost slen = glength as int;
        let ghost len = self.length as int;
        proof {
            crate::arith::lemma_pow10_18();
            lemma_pow10_adds(plen as int, slen);
            lemma_pow10_adds(plen as int - 1, slen);
        }
        let mut beg: i64 = 1;
        let mut k: i64 = 0;
        while k < glength - 1
            invariant
                0 <= k <= glength - 1,
                beg == pow10(k as int),
            decreases glength - 1 - k,
        {
            proof {
                assert(pow10(k as int + 1) == 10 * pow10(k as int));
                lemma_pow10_pos(k as int);
                lemma_pow10_monotone(k as int + 1, 18);
                crate::arith::lemma_pow10_18();
            }
            beg = beg * 10;
            k = k + 1;
        }
        proof {
            lemma_pow10_monotone(slen, 18);
            lemma_pow10_pos(slen - 1);
        }
        let hi = beg * 10;
        assert(hi == pow10(slen));
        proof {
            assert(prefix * pow10(slen) + pow10(slen) <= pow10(plen as int) * pow10(slen))
                by (nonlinear_arith)
                requires
                    prefix + 1 <= pow10(plen as int),
                    pow10(slen) >= 1,
            ;
            assert(pow10(plen as int - 1) * pow10(slen) <= prefix * pow10(slen))
                by (nonlinear_arith)
                requires
                    pow10(plen as int - 1) <= prefix,
                    pow10(slen) >= 1,
            ;
            lemma_pow10_monotone(len, 18);
            lemma_pow10_pos(len - 1);
        }
        let t = prefix * hi;
        assert(pow10(len - 1) <= t <= pow10(len) - pow10(slen));
        let mut attempts: u32 = 0;
        while attempts < 1000000
            invariant
                *self == *old(self),
            decreases 1000000 - attempts,
        {
            let seed = rand_range(rng, beg, hi);
            let v = t + seed;
            proof {
                lemma_digits_of_range(v as int, len);
                lemma_rev_digits_bound(v as int, 0);
                lemma_fundamental_div_mod_converse(
                    v as int,
                    pow10(slen),
                    prefix as int,
                    seed as int,
                );
            }
            if luhn_check(v) {
                self.number = Some(v);
                return Ok(());
            }
            attempts = attempts + 1;
        }
        Err(String::from_str("retry limit reached"))
    }

    /// The body of the line the console sink prints for this card.
    pub open spec fn render_spec(&self) -> Seq<char> {
        "type: "@ + self.ctype.display_name_spec() + ", number: "@ + (match self.number {
            Some(i) => int_str(i as int),
            None => "None_Generated"@,
        })
    }

    /// Renders the card for the console sink: its brand label and its
    /// number, or a placeholder when no number was generated.
    pub fn render(&self) -> (r: String)
        ensures
            r@ == self.render_spec(),
    {
        let mut out = String::from_str("type: ");
        let name = self.ctype.display_name();
        out.append(name.as_str());
        out.append(", number: ");
        match &self.number {
            Some(i) => {
                let num = i64_to_string(*i);
                out.append(num.as_str());
            },
            None => {
                out.append("None_Generated");
            },
        }
        proof {
            assert(out@ =~= self.render_spec());
        }
        out
    }
}

/// Decimal digit count as the engine counts it: one for zero, the
/// plain digit count for positives, and zero for negatives.
pub fn numlength(n: i64) -> (r: i64)
    ensures
        r as int == (if n == 0 {
            1int
        } else {
            digits(n as int)
        }),
{
    if n == 0 {
        return 1;
    }
    proof {
        crate::arith::lemma_pow10_19();
        if n > 0 {
            lemma_digits_le(n as int, 19);
            lemma_digits_nonneg(n as int);
        }
    }
    let mut n2 = n;
    let mut l: i64 = 0;
    while n2 > 0
        invariant
            digits(n as int) == l + digits(n2 as int),
            0 <= l,
            n > 0 ==> l <= digits(n as int) <= 19,
            n < 0 ==> n2 == n && l == 0,
        decreases n2,
    {
        proof {
            lemma_digits_nonneg(n2 as int / 10);
        }
        n2 = n2 / 10;
        l = l + 1;
    }
    l
}

} // verus!
