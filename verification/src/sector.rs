//! Sector expressions.
//!
//! A sector is written as a count of sectors, a size, a share of the disk or
//! the name of a place on it. What such an expression means is for the disk
//! model to say. The one form that is rewritten here is a size in mebibytes,
//! `<N>MiB`, which becomes a size in whole megabytes, `<M>M`, rounded towards
//! zero. The rounding loses up to a megabyte; it is part of the language.

use crate::error::{outcome, ConfigError, ConfigErrorView};
use crate::text::{
    decimal, digits_of, ends_with, format_integer, integer, is_digit, law_decimal_reads_back,
    lemma_digits_of, parse_i64, signed64, strip_suffix,
};
use vstd::prelude::*;
use vstd::string::*;

verus! {

/// A sector expression, and the token it was written as.
#[derive(Debug, Clone, PartialEq, Eq)]
pub struct Sector {
    /// The token as it was given.
    pub token: String,
    /// The expression to hand to the disk model.
    pub expression: String,
}

/// The mathematical value of a [`Sector`].
pub struct SectorView {
    pub token: Seq<char>,
    pub expression: Seq<char>,
}

impl DeepView for Sector {
    type V = SectorView;

    open spec fn deep_view(&self) -> SectorView {
        SectorView { token: self.token@, expression: self.expression@ }
    }
}

/// The megabytes (of 1,000,000 bytes) in a number of mebibytes (of 1,048,576
/// bytes), rounded towards zero.
pub open spec fn metric_megabytes(mebibytes: int) -> int {
    if mebibytes >= 0 {
        mebibytes * 1_048_576 / 1_000_000
    } else {
        -((-mebibytes) * 1_048_576 / 1_000_000)
    }
}

/// The expression that a token stands for: a token that ends in `MiB` must
/// have a 64-bit integer before it and becomes that many mebibytes in
/// megabytes, followed by `M`; every other token stands for itself.
pub open spec fn expression_of(token: Seq<char>) -> Option<Seq<char>> {
    if ends_with(token, "MiB"@) {
        match signed64(token.take(token.len() - "MiB"@.len())) {
            Some(mebibytes) => Some(decimal(metric_megabytes(mebibytes as int)) + "M"@),
            None => None,
        }
    } else {
        Some(token)
    }
}

/// The sector that a token is read as.
pub open spec fn sector_of(token: Seq<char>) -> Result<SectorView, ConfigErrorView> {
    match expression_of(token) {
        Some(expression) => Ok(SectorView { token, expression }),
        None => Err(ConfigErrorView::InvalidSector(token)),
    }
}

/// Reads a sector token.
pub fn parse_sector(token: &str) -> (sector: Result<Sector, ConfigError>)
    ensures
        outcome(sector) == sector_of(token@),
{
    match strip_suffix(token, "MiB") {
        Some(count) => {
            match parse_i64(count) {
                Some(mebibytes) => {
                    let wide: i128 = mebibytes as i128;
                    let megabytes: i128 = (wide * 1_048_576) / 1_000_000;
                    let mut expression = format_integer(megabytes);
                    expression.append("M");
                    Ok(Sector { token: token.to_owned(), expression })
                },
                None => Err(ConfigError::InvalidSector(token.to_owned())),
            }
        },
        None => Ok(Sector { token: token.to_owned(), expression: token.to_owned() }),
    }
}

/// A size in mebibytes becomes the size in megabytes: where a numeral reads as
/// the 64-bit number `n`, the token of the numeral and `MiB` becomes `<m>M`,
/// with `m` the quotient of `n × 1048576` by `1000000`, rounded down. This
/// holds of every `n` that is not negative, and of the negative ones that
/// divide evenly (the multiples of 15625): the others are rounded towards
/// zero, which for them is up.
pub proof fn law_mebibytes_become_megabytes(numeral: Seq<char>, n: int)
    requires
        i64::MIN <= n <= i64::MAX,
        integer(numeral, true) == Some(n),
        n >= 0 || n % 15625 == 0,
    ensures
        expression_of(numeral + "MiB"@) == Some(decimal(n * 1_048_576 / 1_000_000) + "M"@),
{
    reveal_strlit("MiB");
    let token = numeral + "MiB"@;
    assert(token.subrange(token.len() - 3, token.len() as int) =~= "MiB"@);
    assert(token.take(token.len() - 3) =~= numeral);
    if n < 0 {
        let k = n / 15625;
        assert(n == 15625 * k);
        assert(n * 1_048_576 == (k * 16384) * 1_000_000);
        assert((-n) * 1_048_576 == (-k * 16384) * 1_000_000);
        assert(n * 1_048_576 / 1_000_000 == k * 16384) by (nonlinear_arith)
            requires
                n * 1_048_576 == (k * 16384) * 1_000_000,
        ;
        assert((-n) * 1_048_576 / 1_000_000 == -k * 16384) by (nonlinear_arith)
            requires
                (-n) * 1_048_576 == (-k * 16384) * 1_000_000,
        ;
    }
}

/// The same of a number as it is written in decimal: `<n>MiB` becomes `<m>M`.
pub proof fn law_written_mebibytes_become_megabytes(n: int)
    requires
        i64::MIN <= n <= i64::MAX,
        n >= 0 || n % 15625 == 0,
    ensures
        expression_of(decimal(n) + "MiB"@) == Some(decimal(n * 1_048_576 / 1_000_000) + "M"@),
{
    law_decimal_reads_back(n);
    law_mebibytes_become_megabytes(decimal(n), n);
}

/// A token that does not end in `MiB` is handed on as it is.
pub proof fn law_other_tokens_unchanged(token: Seq<char>)
    requires
        !ends_with(token, "MiB"@),
    ensures
        sector_of(token) == Ok::<SectorView, ConfigErrorView>(
            SectorView { token, expression: token },
        ),
{
}

/// Reading is idempotent: the expression of a sector, read as a token again,
/// stands for itself.
pub proof fn law_expression_is_canonical(token: Seq<char>)
    requires
        expression_of(token) is Some,
    ensures
        expression_of(expression_of(token)->0) == expression_of(token),
{
    reveal_strlit("MiB");
    reveal_strlit("M");
    if ends_with(token, "MiB"@) {
        let mebibytes = signed64(token.take(token.len() - 3))->0;
        let number = decimal(metric_megabytes(mebibytes as int));
        let expression = number + "M"@;
        let m = metric_megabytes(mebibytes as int);
        if m < 0 {
            lemma_digits_of((-m) as nat);
        } else {
            lemma_digits_of(m as nat);
        }
        if expression.len() >= 3 {
            let tail = expression.subrange(expression.len() - 3, expression.len() as int);
            assert(tail[1] == expression[expression.len() - 2]);
            assert(expression[expression.len() - 2] == number[number.len() - 1]);
            assert(is_digit(number[number.len() - 1])) by {
                if m < 0 {
                    let digits = digits_of((-m) as nat);
                    assert(number[number.len() - 1] == digits[digits.len() - 1]);
                }
            }
            assert("MiB"@[1] == 'i');
        }
    }
}

} // verus!
