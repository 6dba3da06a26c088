use rand::Rng;
use vstd::prelude::*;

verus! {

broadcast use vstd::string::group_string_axioms;

/// The pattern of the dice themselves: a count, `d` or `D`, and the sides.
pub const DICE_PATTERN: &'static str = r"^(\d+)[dD](\d+)";

/// The pattern of the bonus that may end the text: a sign and a number.
pub const BONUS_PATTERN: &'static str = r"([+-]\d+)$";

/// Why a text is not read as dice.
#[derive(Debug, Clone, Copy, PartialEq, Eq, Structural)]
pub enum DiceError {
    /// The regular-expression engine refused one of the two patterns.
    Pattern,
    /// The text does not begin with a count, `d` or `D`, and a number of sides.
    NoDice,
    /// A number in the text is no decimal number within the range of `i16`.
    Number,
}

/// Dice to roll: `value` dice of `side` sides each, and a `bonus` added to the sum.
#[derive(Debug, Clone, Copy, PartialEq, Eq, Structural)]
pub struct Dice {
    pub value: i16,
    pub side: i16,
    pub bonus: i16,
}

/// The groups of a match as plain sequences of characters.
pub open spec fn groups_view(groups: Option<Vec<Option<String>>>) -> Option<Seq<Option<Seq<char>>>> {
    match groups {
        Some(groups) => Some(Seq::new(groups@.len(), |i: int| text_view(groups@[i]))),
        None => None,
    }
}

/// The characters of a group, if the group took part in the match.
pub open spec fn text_view(group: Option<String>) -> Option<Seq<char>> {
    match group {
        Some(text) => Some(text@),
        None => None,
    }
}

/// Whether the regular-expression engine accepts `pattern`.
pub uninterp spec fn compiles(pattern: Seq<char>) -> bool;

/// What the leftmost match of `pattern` in `text` captures: the whole match as
/// group 0, then each group of the pattern, `None` for a group that took no part;
/// `None` where `pattern` does not match in `text`.
pub uninterp spec fn captured(pattern: Seq<char>, text: Seq<char>) -> Option<Seq<Option<Seq<char>>>>;

/// What `regex` says of a pattern that it does not compile.
#[verifier::external_type_specification]
#[verifier::external_body]
pub struct ExPatternError(regex::Error);

/// Trusted: compiles `pattern` with `regex::Regex::new`, which fails on a pattern it
/// does not accept, and searches `text` with `Regex::captures`. The groups are
/// handed back as owned strings, in the order of `Captures::iter`. Whether the
/// pattern compiles and what is captured depend on `pattern` and `text` alone, so
/// the contract gives each a name and says no more.
#[verifier::external_body]
fn captures(pattern: &str, text: &str) -> (found: Result<Option<Vec<Option<String>>>, regex::Error>)
    ensures
        found is Ok <==> compiles(pattern@),
        found matches Ok(groups) ==> groups_view(groups) == captured(pattern@, text@),
{
    let re = regex::Regex::new(pattern)?;
    Ok(re.captures(text).map(|c| c.iter().map(|g| g.map(|m| m.as_str().to_owned())).collect()))
}

/// Trusted: `rand::Rng::gen_range(1, side)` on the generator of `rand::thread_rng`
/// returns a number from 1 up to, but not including, `side`. It panics where
/// `side` is not above 1, which the `requires` leaves out, and where the operating
/// system gives the generator no seed.
#[verifier::external_body]
fn roll_die(side: i16) -> (face: i16)
    requires
        side > 1,
    ensures
        1 <= face < side,
{
    rand::thread_rng().gen_range(1, side)
}

/// Whether `c` is one of the ten decimal digits.
pub open spec fn is_digit(c: char) -> bool {
    '0' <= c <= '9'
}

/// The number that the digits spell, read as a decimal number.
pub open spec fn digits_value(digits: Seq<char>) -> int
    decreases digits.len(),
{
    if digits.len() == 0 {
        0
    } else {
        digits_value(digits.drop_last()) * 10 + (digits.last() as int - '0' as int)
    }
}

/// Whether the text begins with a sign.
pub open spec fn signed(text: Seq<char>) -> bool {
    text.len() > 0 && (text[0] == '+' || text[0] == '-')
}

/// The text without its sign.
pub open spec fn unsigned_part(text: Seq<char>) -> Seq<char> {
    if signed(text) {
        text.drop_first()
    } else {
        text
    }
}

/// The number that the text spells: an optional sign, then one or more decimal
/// digits and nothing else. `None` for any other text.
pub open spec fn decimal(text: Seq<char>) -> Option<int> {
    let digits = unsigned_part(text);
    if digits.len() > 0 && (forall|i: int| 0 <= i < digits.len() ==> is_digit(#[trigger] digits[i])) {
        if signed(text) && text[0] == '-' {
            Some(-digits_value(digits))
        } else {
            Some(digits_value(digits))
        }
    } else {
        None
    }
}

/// The number that the text spells, where it lies within the range of `i16`.
pub open spec fn decimal_i16(text: Seq<char>) -> Option<i16> {
    match decimal(text) {
        Some(n) if i16::MIN <= n <= i16::MAX => Some(n as i16),
        _ => None,
    }
}

/// The number in group `i` of a match.
pub open spec fn group_number(groups: Seq<Option<Seq<char>>>, i: int) -> Result<i16, DiceError> {
    if 0 <= i < groups.len() && groups[i] is Some {
        match decimal_i16(groups[i]->0) {
            Some(n) => Ok(n),
            None => Err(DiceError::Number),
        }
    } else {
        Err(DiceError::NoDice)
    }
}

/// The dice that two matches describe: `dice` is the match of the dice pattern,
/// `bonus` that of the bonus pattern. Without a match of the bonus pattern the
/// bonus is 0.
pub open spec fn dice_of(
    dice: Option<Seq<Option<Seq<char>>>>,
    bonus: Option<Seq<Option<Seq<char>>>>,
) -> Result<Dice, DiceError> {
    match dice {
        None => Err(DiceError::NoDice),
        Some(groups) => match group_number(groups, 1) {
            Err(e) => Err(e),
            Ok(value) => match group_number(groups, 2) {
                Err(e) => Err(e),
                Ok(side) => match bonus {
                    None => Ok(Dice { value, side, bonus: 0 }),
                    Some(extra) => match group_number(extra, 1) {
                        Err(e) => Err(e),
                        Ok(bonus) => Ok(Dice { value, side, bonus }),
                    },
                },
            },
        },
    }
}

/// The dice that `text` describes.
pub open spec fn described(text: Seq<char>) -> Result<Dice, DiceError> {
    if compiles(DICE_PATTERN@) && compiles(BONUS_PATTERN@) {
        dice_of(captured(DICE_PATTERN@, text), captured(BONUS_PATTERN@, text))
    } else {
        Err(DiceError::Pattern)
    }
}

/// The sum of the faces.
pub open spec fn sum(faces: Seq<i16>) -> int
    decreases faces.len(),
{
    if faces.len() == 0 {
        0
    } else {
        sum(faces.drop_last()) + faces.last()
    }
}

/// A longer run of digits spells no smaller number.
proof fn lemma_digits_grow(digits: Seq<char>, n: int)
    requires
        0 <= n <= digits.len(),
        forall|i: int| 0 <= i < digits.len() ==> is_digit(#[trigger] digits[i]),
    ensures
        0 <= digits_value(digits.take(n)) <= digits_value(digits),
    decreases digits.len() - n,
{
    if n == digits.len() {
        assert(digits.take(n) =~= digits);
        lemma_digits_positive(digits);
    } else {
        lemma_digits_grow(digits, n + 1);
        assert(digits.take(n + 1).drop_last() =~= digits.take(n));
        assert(is_digit(digits[n]));
        lemma_digits_positive(digits.take(n));
    }
}

/// Digits spell no negative number.
proof fn lemma_digits_positive(digits: Seq<char>)
    requires
        forall|i: int| 0 <= i < digits.len() ==> is_digit(#[trigger] digits[i]),
    ensures
        0 <= digits_value(digits),
    decreases digits.len(),
{
    if digits.len() > 0 {
        lemma_digits_positive(digits.drop_last());
        assert(is_digit(digits[digits.len() - 1]));
    }
}

/// Reads a decimal number with an optional sign, as long as it fits in `i16`.
pub fn parse_i16(text: &str) -> (number: Option<i16>)
    ensures
        number == decimal_i16(text@),
{
    let mut negative = false;
    let mut first = true;
    let mut any_digit = false;
    let mut magnitude: i32 = 0;
    for ch in it: text.chars()
        invariant
            it.seq() == text@,
            first == (it.index() == 0),
            negative == (it.index() > 0 && text@[0] == '-'),
            any_digit == (unsigned_part(text@.take(it.index())).len() > 0),
            forall|i: int|
                0 <= i < unsigned_part(text@.take(it.index())).len() ==> is_digit(
                    #[trigger] unsigned_part(text@.take(it.index()))[i],
                ),
            magnitude == digits_value(unsigned_part(text@.take(it.index()))),
            0 <= magnitude <= 32768,
    {
        let ghost n = it.index();
        let ghost before = unsigned_part(text@.take(n));
        let ghost after = unsigned_part(text@.take(n + 1));
        if first && (ch == '+' || ch == '-') {
            negative = ch == '-';
            proof {
                assert(after =~= Seq::<char>::empty());
            }
        } else if '0' <= ch && ch <= '9' {
            proof {
                assert(signed(text@.take(n + 1)) == signed(text@.take(n)) || n == 0);
                assert(after =~= before.push(ch));
                assert(after.drop_last() =~= before);
            }
            let digit: i32 = (ch as u32 - '0' as u32) as i32;
            if magnitude > 3276 {
                proof {
                    let rest = unsigned_part(text@);
                    if decimal(text@) is Some {
                        assert(rest.take(after.len() as int) =~= after);
                        lemma_digits_grow(rest, after.len() as int);
                    }
                }
                return None;
            }
            magnitude = magnitude * 10 + digit;
            any_digit = true;
            if magnitude > 32768 {
                proof {
                    let rest = unsigned_part(text@);
                    if decimal(text@) is Some {
                        assert(rest.take(after.len() as int) =~= after);
                        lemma_digits_grow(rest, after.len() as int);
                    }
                }
                return None;
            }
        } else {
            proof {
                let rest = unsigned_part(text@);
                if signed(text@) {
                    assert(n >= 1);
                    assert(rest[n - 1] == ch);
                } else {
                    assert(rest[n] == ch);
                }
            }
            return None;
        }
        first = false;
    }
    proof {
        assert(text@.take(text@.len() as int) =~= text@);
    }
    if !any_digit {
        return None;
    }
    if negative {
        Some((-magnitude) as i16)
    } else if magnitude <= 32767 {
        Some(magnitude as i16)
    } else {
        None
    }
}

impl Dice {
    /// The number in group `i` of a match.
    fn number(groups: &Vec<Option<String>>, i: usize) -> (number: Result<i16, DiceError>)
        ensures
            number == group_number(groups_view(Some(*groups))->0, i as int),
    {
        if i < groups.len() {
            match &groups[i] {
                Some(text) => match parse_i16(text.as_str()) {
                    Some(n) => Ok(n),
                    None => Err(DiceError::Number),
                },
                None => Err(DiceError::NoDice),
            }
        } else {
            Err(DiceError::NoDice)
        }
    }

    /// The dice that two matches describe: `dice` is what the dice pattern
    /// captured in a text, `bonus` what the bonus pattern captured in it.
    pub fn from_captures(
        dice: &Option<Vec<Option<String>>>,
        bonus: &Option<Vec<Option<String>>>,
    ) -> (read: Result<Dice, DiceError>)
        ensures
            read == dice_of(groups_view(*dice), groups_view(*bonus)),
    {
        match dice {
            None => Err(DiceError::NoDice),
            Some(groups) => {
                let value = match Dice::number(groups, 1) {
                    Ok(n) => n,
                    Err(e) => {
                        return Err(e);
                    },
                };
                let side = match Dice::number(groups, 2) {
                    Ok(n) => n,
                    Err(e) => {
                        return Err(e);
                    },
                };
                match bonus {
                    None => Ok(Dice { value, side, bonus: 0 }),
                    Some(extra) => match Dice::number(extra, 1) {
                        Ok(bonus) => Ok(Dice { value, side, bonus }),
                        Err(e) => Err(e),
                    },
                }
            },
        }
    }

    /// Reads dice from a text such as `2d6`, `1D20+3` or `3d4-5`.
    pub fn new(text: &str) -> (dice: Self)
        requires
            described(text@) is Ok,
        ensures
            described(text@) == Ok::<Dice, DiceError>(dice),
    {
        let found = match captures(DICE_PATTERN, text) {
            Ok(found) => found,
            Err(_) => vstd::pervasive::unreached(),
        };
        let extra = match captures(BONUS_PATTERN, text) {
            Ok(extra) => extra,
            Err(_) => vstd::pervasive::unreached(),
        };
        match Dice::from_captures(&found, &extra) {
            Ok(dice) => dice,
            Err(_) => vstd::pervasive::unreached(),
        }
    }

    /// Reads dice from a text, or says why the text does not describe dice.
    pub fn parse(text: &str) -> (read: Result<Dice, DiceError>)
        ensures
            read == described(text@),
    {
        let found = match captures(DICE_PATTERN, text) {
            Ok(found) => found,
            Err(_) => {
                return Err(DiceError::Pattern);
            },
        };
        let extra = match captures(BONUS_PATTERN, text) {
            Ok(extra) => extra,
            Err(_) => {
                return Err(DiceError::Pattern);
            },
        };
        match Dice::from_captures(&found, &extra) {
            Ok(_) => Ok(Dice::new(text)),
            Err(e) => Err(e),
        }
    }

    /// Whether the dice can be rolled: each die has at least two sides, and
    /// neither the sum of the faces nor the total can leave the range of `i16`.
    pub open spec fn rollable(&self) -> bool {
        self.value > 0 ==> {
            &&& self.side > 1
            &&& self.value * (self.side - 1) <= i16::MAX
            &&& i16::MIN <= self.value + self.bonus
            &&& self.value * (self.side - 1) + self.bonus <= i16::MAX
        }
    }

    /// Whether the dice can be rolled.
    #[verifier::when_used_as_spec(rollable)]
    pub fn can_roll(&self) -> (ok: bool)
        ensures
            ok == self.rollable(),
    {
        if self.value <= 0 {
            return true;
        }
        if self.side <= 1 {
            return false;
        }
        let count: i32 = self.value as i32;
        let top: i32 = self.side as i32 - 1;
        let bonus: i32 = self.bonus as i32;
        assert(0 < count * top <= 32767 * 32766) by (nonlinear_arith)
            requires
                0 < count <= 32767,
                0 < top <= 32766,
        ;
        let most: i32 = count * top;
        most <= 32767 && -32768 <= count + bonus && most + bonus <= 32767
    }

    /// Whether `faces` is what a roll of these dice can show: one face for each
    /// die, each from 1 up to, but not including, the number of sides.
    pub open spec fn shows(&self, faces: Seq<i16>) -> bool {
        &&& faces.len() == (if self.value > 0 {
            self.value as int
        } else {
            0
        })
        &&& forall|i: int| 0 <= i < faces.len() ==> 1 <= #[trigger] faces[i] < self.side
    }

    /// The sum of `n` faces lies between `n` and `n` times the highest face.
    pub proof fn lemma_sum_bounds(&self, faces: Seq<i16>, n: int)
        requires
            0 <= n <= faces.len(),
            forall|i: int| 0 <= i < faces.len() ==> 1 <= #[trigger] faces[i] < self.side,
        ensures
            n <= sum(faces.take(n)) <= n * (self.side - 1),
        decreases n,
    {
        if n > 0 {
            self.lemma_sum_bounds(faces, n - 1);
            assert(faces.take(n).drop_last() =~= faces.take(n - 1));
            assert(faces.take(n).last() == faces[n - 1]);
            assert((n - 1) * (self.side - 1) + (self.side - 1) == n * (self.side - 1))
                by (nonlinear_arith);
        } else {
            assert(faces.take(0) =~= Seq::<i16>::empty());
        }
    }

    /// The total of a roll that showed `faces`: their sum and the bonus.
    pub fn total(&self, faces: &Vec<i16>) -> (total: i16)
        requires
            self.rollable(),
            self.shows(faces@),
        ensures
            total == sum(faces@) + self.bonus,
    {
        let mut roll: i16 = 0;
        for i in 0..faces.len()
            invariant
                self.rollable(),
                self.shows(faces@),
                roll == sum(faces@.take(i as int)),
        {
            proof {
                self.lemma_sum_bounds(faces@, i + 1);
                assert(faces@.take(i + 1).drop_last() =~= faces@.take(i as int));
                assert((i + 1) * (self.side - 1) <= self.value * (self.side - 1))
                    by (nonlinear_arith)
                    requires
                        i + 1 <= self.value,
                        self.side - 1 >= 0,
                ;
            }
            roll = roll + faces[i];
        }
        proof {
            assert(faces@.take(faces@.len() as int) =~= faces@);
            self.lemma_sum_bounds(faces@, faces@.len() as int);
        }
        roll + self.bonus
    }

    /// Rolls the dice: the sum of one random face for each die, and the bonus.
    pub fn roll(&self) -> (total: i16)
        requires
            self.rollable(),
        ensures
            self.value <= 0 ==> total == self.bonus,
            self.value > 0 ==> self.value + self.bonus <= total <= self.value * (self.side - 1)
                + self.bonus,
    {
        let mut faces: Vec<i16> = Vec::new();
        let mut thrown: i16 = 0;
        while thrown < self.value
            invariant
                self.rollable(),
                0 <= thrown,
                self.value > 0 ==> thrown <= self.value,
                self.value <= 0 ==> thrown == 0,
                faces@.len() == thrown,
                forall|i: int| 0 <= i < faces@.len() ==> 1 <= #[trigger] faces@[i] < self.side,
            decreases self.value - thrown,
        {
            faces.push(roll_die(self.side));
            thrown = thrown + 1;
        }
        proof {
            assert(faces@.take(faces@.len() as int) =~= faces@);
            self.lemma_sum_bounds(faces@, faces@.len() as int);
        }
        self.total(&faces)
    }
}

} // verus!
