use vstd::prelude::*;

verus! {

/// Tier tag that partitions pools and boxes.
#[derive(Clone, Copy, Debug, PartialEq, Eq, Structural)]
pub enum BoxRarity {
    Rare,
    Epic,
    Legendary,
}

/// Position of a rarity in per-rarity tables.
pub open spec fn rarity_index(rarity: BoxRarity) -> int {
    match rarity {
        BoxRarity::Rare => 0,
        BoxRarity::Epic => 1,
        BoxRarity::Legendary => 2,
    }
}

/// Lower-case name of a rarity.
pub open spec fn rarity_name(rarity: BoxRarity) -> Seq<char> {
    match rarity {
        BoxRarity::Rare => "rare"@,
        BoxRarity::Epic => "epic"@,
        BoxRarity::Legendary => "legendary"@,
    }
}

/// Content identifier of the artwork shown for a rarity.
pub open spec fn rarity_media(rarity: BoxRarity) -> Seq<char> {
    match rarity {
        BoxRarity::Rare => "bafkreibwmkcer2kp3kv67cydzhzzvzki7hdph5f4w7jeiep2r4s5dp7eb4"@,
        BoxRarity::Epic => "bafkreick7sjo4uzdy3sznvqjuafcds6f5p37apkggvvwkctptdy3qu2vbi"@,
        BoxRarity::Legendary => "bafkreigdv4mnfrndcob64wrwbqoqce257v7bvtxp2flnyqg2onukpssyoq"@,
    }
}

impl BoxRarity {
    pub fn index(&self) -> (r: usize)
        ensures
            r as int == rarity_index(*self),
            r < 3,
    {
        match self {
            BoxRarity::Rare => 0,
            BoxRarity::Epic => 1,
            BoxRarity::Legendary => 2,
        }
    }

    /// The rarity's lower-case name (`rare`, `epic`, `legendary`).
    pub fn to_string(&self) -> (r: String)
        ensures
            r@ == rarity_name(*self),
    {
        match self {
            BoxRarity::Rare => "rare".to_owned(),
            BoxRarity::Epic => "epic".to_owned(),
            BoxRarity::Legendary => "legendary".to_owned(),
        }
    }

    /// Content identifier of the artwork for this rarity.
    pub fn to_media_ipfs(&self) -> (r: String)
        ensures
            r@ == rarity_media(*self),
    {
        match self {
            BoxRarity::Rare => "bafkreibwmkcer2kp3kv67cydzhzzvzki7hdph5f4w7jeiep2r4s5dp7eb4".to_owned(),
            BoxRarity::Epic => "bafkreick7sjo4uzdy3sznvqjuafcds6f5p37apkggvvwkctptdy3qu2vbi".to_owned(),
            BoxRarity::Legendary => "bafkreigdv4mnfrndcob64wrwbqoqce257v7bvtxp2flnyqg2onukpssyoq".to_owned(),
        }
    }
}

/// Chance that a claim yields a reward, as `numerator / denominator`.
#[derive(Clone, Copy, Debug, PartialEq, Eq, Structural)]
pub struct Probability {
    pub numerator: u8,
    pub denominator: u8,
}

/// Why a probability was refused.
#[derive(Clone, Copy, Debug, PartialEq, Eq, Structural)]
pub enum ProbabilityError {
    ZeroDenominator,
    NumeratorAboveDenominator,
}

/// A probability with a positive denominator and a numerator no larger than it.
pub open spec fn probability_valid(p: Probability) -> bool {
    p.denominator != 0 && p.numerator <= p.denominator
}

/// `floor(255 * numerator / denominator)`.
pub open spec fn threshold_of(p: Probability) -> int
    recommends
        p.denominator != 0,
{
    (255 * p.numerator) as int / (p.denominator as int)
}

/// The chance check passes a drawn byte: always at threshold 255, never at 0, and
/// otherwise when the byte is below the threshold.
pub open spec fn chance_passes(threshold: u8, byte: u8) -> bool {
    threshold == 255 || (threshold != 0 && byte < threshold)
}

impl Probability {
    /// Never rewarded.
    pub fn zero() -> (r: Probability)
        ensures
            r == (Probability { numerator: 0, denominator: 1 }),
    {
        Probability { numerator: 0, denominator: 1 }
    }

    /// Always rewarded; the default for a rarity with no probability set.
    pub fn one() -> (r: Probability)
        ensures
            r == (Probability { numerator: 1, denominator: 1 }),
    {
        Probability { numerator: 1, denominator: 1 }
    }

    /// Checks the denominator first, then the numerator.
    pub fn assert_valid(&self) -> (r: Result<(), ProbabilityError>)
        ensures
            r is Ok <==> probability_valid(*self),
            self.denominator == 0 ==> r == Err::<(), _>(ProbabilityError::ZeroDenominator),
            self.denominator != 0 && self.numerator > self.denominator ==> r == Err::<(), _>(
                ProbabilityError::NumeratorAboveDenominator,
            ),
    {
        if self.denominator == 0 {
            Err(ProbabilityError::ZeroDenominator)
        } else if self.numerator > self.denominator {
            Err(ProbabilityError::NumeratorAboveDenominator)
        } else {
            Ok(())
        }
    }

    /// `floor(255 * numerator / denominator)`, the byte bound of the chance check.
    pub fn calculate_threshold(&self) -> (r: u8)
        requires
            probability_valid(*self),
        ensures
            r as int == threshold_of(*self),
            self.numerator == 0 ==> r == 0,
            self.numerator == self.denominator ==> r == 255,
    {
        let num: u16 = self.numerator as u16;
        let den: u16 = self.denominator as u16;
        assert(255 * (num as int) <= 255 * (den as int)) by (nonlinear_arith)
            requires
                num <= den,
        ;
        let t: u16 = (255 * num) / den;
        proof {
            let n = num as int;
            let d = den as int;
            assert(t as int == (255 * n) / d);
            assert((255 * n) / d <= 255) by (nonlinear_arith)
                requires
                    n <= d,
                    d > 0,
            ;
            if n == d {
                assert((255 * n) / d == 255) by (nonlinear_arith)
                    requires
                        n == d,
                        d > 0,
                ;
            }
        }
        t as u8
    }
}

/// Whether a drawn byte passes the chance check of a threshold.
pub fn passes_chance(threshold: u8, byte: u8) -> (r: bool)
    ensures
        r == chance_passes(threshold, byte),
{
    threshold == 255 || (threshold != 0 && byte < threshold)
}

/// What a box yields: an amount of the native currency, or one token of a
/// non-fungible token contract.
#[derive(Clone, Debug, PartialEq, Eq)]
pub enum Reward {
    Near { amount: u128 },
    NonFungibleToken { contract_id: String, token_id: String },
}

/// The value of a reward, with account and token names as character sequences.
pub enum RewardModel {
    Amount { amount: u128 },
    Token { contract: Seq<char>, token: Seq<char> },
}

impl View for Reward {
    type V = RewardModel;

    open spec fn view(&self) -> RewardModel {
        match self {
            Reward::Near { amount } => RewardModel::Amount { amount: *amount },
            Reward::NonFungibleToken { contract_id, token_id } => RewardModel::Token {
                contract: contract_id@,
                token: token_id@,
            },
        }
    }
}

impl Reward {
    /// A copy with the same value.
    pub fn duplicate(&self) -> (r: Reward)
        ensures
            r@ == self@,
    {
        match self {
            Reward::Near { amount } => Reward::Near { amount: *amount },
            Reward::NonFungibleToken { contract_id, token_id } => Reward::NonFungibleToken {
                contract_id: contract_id.clone(),
                token_id: token_id.clone(),
            },
        }
    }
}

/// The view of a sequence of strings.
pub open spec fn string_seq_view(v: Seq<String>) -> Seq<Seq<char>> {
    v.map_values(|s: String| s@)
}

/// Whether a vector of strings holds a string equal to `s`.
pub fn contains_string(v: &Vec<String>, s: &String) -> (r: bool)
    ensures
        r == string_seq_view(v@).contains(s@),
{
    let mut i: usize = 0;
    while i < v.len()
        invariant
            i <= v@.len(),
            forall|j: int| 0 <= j < i ==> v@[j]@ != s@,
        decreases v@.len() - i,
    {
        if v[i] == *s {
            assert(string_seq_view(v@)[i as int] == s@);
            return true;
        }
        i = i + 1;
    }
    proof {
        if string_seq_view(v@).contains(s@) {
            let k = choose|k: int| 0 <= k < string_seq_view(v@).len() && string_seq_view(v@)[k] == s@;
            assert(v@[k]@ == s@);
        }
    }
    false
}

/// What a sequence with one more element contains.
pub proof fn lemma_contains_push<A>(s: Seq<A>, x: A)
    ensures
        forall|c: A| #[trigger] s.push(x).contains(c) <==> (s.contains(c) || c == x),
{
    assert forall|c: A| #[trigger] s.push(x).contains(c) <==> (s.contains(c) || c == x) by {
        if s.push(x).contains(c) {
            let i = choose|i: int| 0 <= i < s.push(x).len() && s.push(x)[i] == c;
            if i < s.len() {
                assert(s[i] == c);
            }
        }
        if s.contains(c) {
            let i = choose|i: int| 0 <= i < s.len() && s[i] == c;
            assert(s.push(x)[i] == c);
        }
        if c == x {
            assert(s.push(x)[s.len() as int] == c);
        }
    }
}

} // verus!
