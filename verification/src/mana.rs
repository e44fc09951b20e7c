//! Mana system: pools, costs, and payment logic.
use vstd::prelude::*;
use crate::types::Color;
use vstd::string::StringSliceAdditionalSpecFns;

verus! {

/// A mana pool holding available mana, one count per color plus colorless.
#[derive(Debug, Clone, Copy, PartialEq, Eq, Structural)]
pub struct ManaPool {
    pub white: u8,
    pub blue: u8,
    pub black: u8,
    pub red: u8,
    pub green: u8,
    pub colorless: u8,
}

/// A mana cost for casting a spell or activating an ability.
#[derive(Debug, Clone, Copy, PartialEq, Eq, Structural)]
pub struct ManaCost {
    pub white: u8,
    pub blue: u8,
    pub black: u8,
    pub red: u8,
    pub green: u8,
    /// `{C}`: payable only with colorless mana.
    pub colorless: u8,
    /// `{N}`: payable with any mana.
    pub generic: u8,
}

/// The smaller of two integers.
pub open spec fn min_int(a: int, b: int) -> int {
    if a <= b { a } else { b }
}

/// The empty pool.
pub open spec fn empty_pool() -> ManaPool {
    ManaPool { white: 0, blue: 0, black: 0, red: 0, green: 0, colorless: 0 }
}

impl ManaPool {
    /// Amount of mana of one kind (`None` = colorless).
    pub open spec fn amount(self, color: Option<Color>) -> u8 {
        match color {
            Some(Color::White) => self.white,
            Some(Color::Blue) => self.blue,
            Some(Color::Black) => self.black,
            Some(Color::Red) => self.red,
            Some(Color::Green) => self.green,
            None => self.colorless,
        }
    }

    /// Total mana in the pool.
    pub open spec fn sum(self) -> int {
        self.white + self.blue + self.black + self.red + self.green + self.colorless
    }

    /// The pool with `amount(color)` replaced by `v`.
    pub open spec fn with_amount(self, color: Option<Color>, v: u8) -> ManaPool {
        match color {
            Some(Color::White) => ManaPool { white: v, ..self },
            Some(Color::Blue) => ManaPool { blue: v, ..self },
            Some(Color::Black) => ManaPool { black: v, ..self },
            Some(Color::Red) => ManaPool { red: v, ..self },
            Some(Color::Green) => ManaPool { green: v, ..self },
            None => ManaPool { colorless: v, ..self },
        }
    }

    /// Whether this pool can pay `cost`: every colored and `{C}` requirement is met by mana
    /// of that kind, and what is left covers the generic part.
    pub open spec fn covers(self, cost: ManaCost) -> bool {
        &&& self.white >= cost.white
        &&& self.blue >= cost.blue
        &&& self.black >= cost.black
        &&& self.red >= cost.red
        &&& self.green >= cost.green
        &&& self.colorless >= cost.colorless
        &&& self.sum() - (cost.white + cost.blue + cost.black + cost.red + cost.green
            + cost.colorless) >= cost.generic
    }

    /// The pool after spending `g` generic mana greedily: colorless first, then
    /// white, blue, black, red, green.
    pub open spec fn spend_generic(self, g: int) -> ManaPool {
        let dc = min_int(g, self.colorless as int);
        let g1 = g - dc;
        let dw = min_int(g1, self.white as int);
        let g2 = g1 - dw;
        let du = min_int(g2, self.blue as int);
        let g3 = g2 - du;
        let db = min_int(g3, self.black as int);
        let g4 = g3 - db;
        let dr = min_int(g4, self.red as int);
        let g5 = g4 - dr;
        let dg = min_int(g5, self.green as int);
        ManaPool {
            colorless: (self.colorless - dc) as u8,
            white: (self.white - dw) as u8,
            blue: (self.blue - du) as u8,
            black: (self.black - db) as u8,
            red: (self.red - dr) as u8,
            green: (self.green - dg) as u8,
        }
    }

    /// The pool after paying the colored and `{C}` parts of `cost`.
    pub open spec fn spend_specific(self, cost: ManaCost) -> ManaPool {
        ManaPool {
            white: (self.white - cost.white) as u8,
            blue: (self.blue - cost.blue) as u8,
            black: (self.black - cost.black) as u8,
            red: (self.red - cost.red) as u8,
            green: (self.green - cost.green) as u8,
            colorless: (self.colorless - cost.colorless) as u8,
        }
    }

    /// The pool after a successful payment of `cost`.
    pub open spec fn paid(self, cost: ManaCost) -> ManaPool {
        self.spend_specific(cost).spend_generic(cost.generic as int)
    }

    /// An empty pool.
    pub fn new() -> (r: Self)
        ensures
            r == empty_pool(),
    {
        ManaPool { white: 0, blue: 0, black: 0, red: 0, green: 0, colorless: 0 }
    }

    /// Add `amount` mana of one kind (`None` = colorless).
    pub fn add(&mut self, color: Option<Color>, amount: u8)
        requires
            old(self).amount(color) + amount <= u8::MAX,
        ensures
            *final(self) == old(self).with_amount(color, (old(self).amount(color) + amount) as u8),
    {
        match color {
            Some(Color::White) => self.white = self.white + amount,
            Some(Color::Blue) => self.blue = self.blue + amount,
            Some(Color::Black) => self.black = self.black + amount,
            Some(Color::Red) => self.red = self.red + amount,
            Some(Color::Green) => self.green = self.green + amount,
            None => self.colorless = self.colorless + amount,
        }
    }

    /// Total mana in the pool.
    pub fn total(&self) -> (r: u16)
        ensures
            r == self.sum(),
    {
        self.white as u16 + self.blue as u16 + self.black as u16 + self.red as u16
            + self.green as u16 + self.colorless as u16
    }

    /// Remove all mana from the pool.
    pub fn empty(&mut self)
        ensures
            *final(self) == empty_pool(),
    {
        *self = ManaPool::new();
    }

    /// Amount of mana of one kind (`None` = colorless).
    pub fn get(&self, color: Option<Color>) -> (r: u8)
        ensures
            r == self.amount(color),
    {
        match color {
            Some(Color::White) => self.white,
            Some(Color::Blue) => self.blue,
            Some(Color::Black) => self.black,
            Some(Color::Red) => self.red,
            Some(Color::Green) => self.green,
            None => self.colorless,
        }
    }

    /// Remove up to `amount` mana of one kind; the count stops at zero.
    pub fn remove(&mut self, color: Option<Color>, amount: u8)
        ensures
            *final(self) == old(self).with_amount(
                color,
                (if old(self).amount(color) >= amount {
                    old(self).amount(color) - amount
                } else {
                    0
                }) as u8,
            ),
    {
        match color {
            Some(Color::White) => self.white = self.white.saturating_sub(amount),
            Some(Color::Blue) => self.blue = self.blue.saturating_sub(amount),
            Some(Color::Black) => self.black = self.black.saturating_sub(amount),
            Some(Color::Red) => self.red = self.red.saturating_sub(amount),
            Some(Color::Green) => self.green = self.green.saturating_sub(amount),
            None => self.colorless = self.colorless.saturating_sub(amount),
        }
    }

    /// Check if this pool can pay a given mana cost.
    pub fn can_pay(&self, cost: &ManaCost) -> (r: bool)
        ensures
            r == self.covers(*cost),
    {
        if self.white < cost.white || self.blue < cost.blue || self.black < cost.black
            || self.red < cost.red || self.green < cost.green {
            return false;
        }
        let remaining = (self.white - cost.white) as u16 + (self.blue - cost.blue) as u16 + (
        self.black - cost.black) as u16 + (self.red - cost.red) as u16 + (self.green
            - cost.green) as u16;
        let colorless_remaining = self.colorless;
        if colorless_remaining < cost.colorless {
            return false;
        }
        let colorless_after = (colorless_remaining - cost.colorless) as u16;
        remaining + colorless_after >= cost.generic as u16
    }

    /// Pay `amount` generic mana (colorless first, then white, blue, black, red, green).
    /// Succeeds exactly when the pool holds at least `amount` mana, and then spends exactly
    /// that much; otherwise the pool is unchanged.
    pub fn pay_generic(&mut self, amount: u32) -> (r: bool)
        ensures
            r == (amount <= old(self).sum()),
            r ==> *final(self) == old(self).spend_generic(amount as int),
            r ==> final(self).sum() == old(self).sum() - amount,
            !r ==> *final(self) == *old(self),
    {
        if (self.total() as u32) < amount {
            return false;
        }
        let ghost p0 = *self;
        let mut remaining = amount;
        take_up_to_wide(&mut self.colorless, &mut remaining);
        take_up_to_wide(&mut self.white, &mut remaining);
        take_up_to_wide(&mut self.blue, &mut remaining);
        take_up_to_wide(&mut self.black, &mut remaining);
        take_up_to_wide(&mut self.red, &mut remaining);
        take_up_to_wide(&mut self.green, &mut remaining);
        proof {
            assert(*self == p0.spend_generic(amount as int));
        }
        true
    }

    /// Pay a mana cost from this pool. Returns true if successful.
    /// Uses a greedy strategy: pay colored first, then colorless-specific, then generic
    /// (generic from colorless first, then white, blue, black, red, green).
    pub fn pay(&mut self, cost: &ManaCost) -> (r: bool)
        ensures
            r == old(self).covers(*cost),
            r ==> *final(self) == old(self).paid(*cost),
            !r ==> *final(self) == *old(self),
    {
        if !self.can_pay(cost) {
            return false;
        }
        self.white = self.white - cost.white;
        self.blue = self.blue - cost.blue;
        self.black = self.black - cost.black;
        self.red = self.red - cost.red;
        self.green = self.green - cost.green;
        self.colorless = self.colorless - cost.colorless;
        let mut generic_remaining = cost.generic;
        self.spend_generic_exec(&mut generic_remaining);
        true
    }

    /// Spend `*remaining` generic mana greedily (colorless, then W, U, B, R, G), leaving in
    /// `*remaining` what could not be paid.
    fn spend_generic_exec(&mut self, remaining: &mut u8)
        ensures
            *final(self) == old(self).spend_generic(*old(remaining) as int),
    {
        let from_colorless = take_up_to(&mut self.colorless, remaining);
        let from_white = take_up_to(&mut self.white, remaining);
        let from_blue = take_up_to(&mut self.blue, remaining);
        let from_black = take_up_to(&mut self.black, remaining);
        let from_red = take_up_to(&mut self.red, remaining);
        let from_green = take_up_to(&mut self.green, remaining);
    }
}

/// Take `min(*remaining, *pool)` from `*pool`, lowering `*remaining` by the same amount.
fn take_up_to_wide(pool: &mut u8, remaining: &mut u32)
    ensures
        *final(pool) == *old(pool) - min_int(*old(remaining) as int, *old(pool) as int),
        *final(remaining) == *old(remaining) - min_int(*old(remaining) as int, *old(pool) as int),
{
    if *remaining <= *pool as u32 {
        *pool = *pool - (*remaining as u8);
        *remaining = 0;
    } else {
        *remaining = *remaining - (*pool as u32);
        *pool = 0;
    }
}

/// Take `min(*remaining, *pool)` from `*pool`, lowering `*remaining` by the same amount.
fn take_up_to(pool: &mut u8, remaining: &mut u8) -> (taken: u8)
    ensures
        taken == min_int(*old(remaining) as int, *old(pool) as int),
        *final(pool) == *old(pool) - taken,
        *final(remaining) == *old(remaining) - taken,
{
    let taken = if *remaining <= *pool { *remaining } else { *pool };
    *pool = *pool - taken;
    *remaining = *remaining - taken;
    taken
}

impl ManaCost {
    /// Mana value: the sum of all parts of the cost.
    pub open spec fn value(self) -> int {
        self.white + self.blue + self.black + self.red + self.green + self.colorless
            + self.generic
    }

    /// The cost of nothing.
    pub fn zero() -> (r: ManaCost)
        ensures
            r == zero_cost(),
    {
        ManaCost { white: 0, blue: 0, black: 0, red: 0, green: 0, colorless: 0, generic: 0 }
    }

    /// Mana value of the cost.
    pub fn cmc(&self) -> (r: u8)
        requires
            self.value() <= u8::MAX,
        ensures
            r == self.value(),
    {
        self.white + self.blue + self.black + self.red + self.green + self.colorless + self.generic
    }

    /// A cost with just generic mana.
    pub fn generic(n: u8) -> (r: Self)
        ensures
            r == (ManaCost { generic: n, ..zero_cost() }),
    {
        ManaCost { generic: n, ..ManaCost::zero() }
    }

    /// A cost of `n` mana of one color, the color given by its index in W, U, B, R, G;
    /// any other index gives the zero cost.
    pub fn color(color_idx: usize, n: u8) -> (r: Self)
        ensures
            r == (match color_idx {
                0 => ManaCost { white: n, ..zero_cost() },
                1 => ManaCost { blue: n, ..zero_cost() },
                2 => ManaCost { black: n, ..zero_cost() },
                3 => ManaCost { red: n, ..zero_cost() },
                4 => ManaCost { green: n, ..zero_cost() },
                _ => zero_cost(),
            }),
    {
        let mut cost = ManaCost::zero();
        match color_idx {
            0 => cost.white = n,
            1 => cost.blue = n,
            2 => cost.black = n,
            3 => cost.red = n,
            4 => cost.green = n,
            _ => {},
        }
        cost
    }

    /// `n` white mana.
    pub fn w(n: u8) -> (r: Self)
        ensures
            r == (ManaCost { white: n, ..zero_cost() }),
    {
        ManaCost { white: n, ..ManaCost::zero() }
    }

    /// `n` blue mana.
    pub fn u(n: u8) -> (r: Self)
        ensures
            r == (ManaCost { blue: n, ..zero_cost() }),
    {
        ManaCost { blue: n, ..ManaCost::zero() }
    }

    /// `n` black mana.
    pub fn b(n: u8) -> (r: Self)
        ensures
            r == (ManaCost { black: n, ..zero_cost() }),
    {
        ManaCost { black: n, ..ManaCost::zero() }
    }

    /// `n` red mana.
    pub fn r(n: u8) -> (r: Self)
        ensures
            r == (ManaCost { red: n, ..zero_cost() }),
    {
        ManaCost { red: n, ..ManaCost::zero() }
    }

    /// `n` green mana.
    pub fn g(n: u8) -> (r: Self)
        ensures
            r == (ManaCost { green: n, ..zero_cost() }),
    {
        ManaCost { green: n, ..ManaCost::zero() }
    }
}

/// The cost of nothing.
pub open spec fn zero_cost() -> ManaCost {
    ManaCost { white: 0, blue: 0, black: 0, red: 0, green: 0, colorless: 0, generic: 0 }
}

impl Default for ManaPool {
    fn default() -> (r: Self)
        ensures
            r == empty_pool(),
    {
        ManaPool::new()
    }
}

impl Default for ManaCost {
    fn default() -> (r: Self)
        ensures
            r == zero_cost(),
    {
        ManaCost::zero()
    }
}

} // verus!

verus! {

/// Counts of each mana symbol, as unbounded integers.
pub struct SymbolCounts {
    pub w: int,
    pub u: int,
    pub b: int,
    pub r: int,
    pub g: int,
    pub c: int,
    pub generic: int,
}

/// No symbols counted.
pub open spec fn no_symbols() -> SymbolCounts {
    SymbolCounts { w: 0, u: 0, b: 0, r: 0, g: 0, c: 0, generic: 0 }
}

/// Field-wise sum of two symbol counts.
pub open spec fn add_counts(x: SymbolCounts, y: SymbolCounts) -> SymbolCounts {
    SymbolCounts {
        w: x.w + y.w,
        u: x.u + y.u,
        b: x.b + y.b,
        r: x.r + y.r,
        g: x.g + y.g,
        c: x.c + y.c,
        generic: x.generic + y.generic,
    }
}

/// Whether a byte is an ASCII decimal digit.
pub open spec fn is_digit(c: u8) -> bool {
    48 <= c <= 57
}

/// Decimal value of a string of digits.
pub open spec fn decimal_value(s: Seq<u8>) -> int
    decreases s.len(),
{
    if s.len() == 0 {
        0
    } else {
        decimal_value(s.drop_last()) * 10 + (s.last() - 48)
    }
}

/// What parsing `s` as a `u8` gives: an optional `+` sign followed by one or more decimal
/// digits whose value is at most 255; anything else is rejected.
pub open spec fn parse_u8_spec(s: Seq<u8>) -> Option<u8> {
    let digits = sign_stripped(s);
    if digits.len() == 0 {
        None
    } else if !all_digits(digits) {
        None
    } else if decimal_value(digits) > 255 {
        None
    } else {
        Some(decimal_value(digits) as u8)
    }
}

/// `s` without one leading `+`, if it has one.
pub open spec fn sign_stripped(s: Seq<u8>) -> Seq<u8> {
    if s.len() > 0 && s[0] == 43u8 { s.skip(1) } else { s }
}

/// Every byte of `d` is a decimal digit.
pub open spec fn all_digits(d: Seq<u8>) -> bool {
    forall|i: int| 0 <= i < d.len() ==> is_digit(#[trigger] d[i])
}

/// The symbol counts that one symbol (the text between braces) contributes.
pub open spec fn symbol_counts(sym: Seq<u8>) -> SymbolCounts {
    if sym =~= seq![87u8] {
        SymbolCounts { w: 1, ..no_symbols() }
    } else if sym =~= seq![85u8] {
        SymbolCounts { u: 1, ..no_symbols() }
    } else if sym =~= seq![66u8] {
        SymbolCounts { b: 1, ..no_symbols() }
    } else if sym =~= seq![82u8] {
        SymbolCounts { r: 1, ..no_symbols() }
    } else if sym =~= seq![71u8] {
        SymbolCounts { g: 1, ..no_symbols() }
    } else if sym =~= seq![67u8] {
        SymbolCounts { c: 1, ..no_symbols() }
    } else {
        match parse_u8_spec(sym) {
            Some(v) => SymbolCounts { generic: v as int, ..no_symbols() },
            None => no_symbols(),
        }
    }
}

/// Index of the first `}` at or after `i`, or `b.len()` if there is none.
pub open spec fn close_brace_from(b: Seq<u8>, i: int) -> int
    decreases b.len() - i,
{
    if i >= b.len() || i < 0 {
        b.len() as int
    } else if b[i] == 125u8 {
        i
    } else {
        close_brace_from(b, i + 1)
    }
}

/// Symbol counts of the mana-cost text `b` read from index `i` on: each `{...}` group
/// contributes its symbol, every other byte is skipped.
pub open spec fn counts_from(b: Seq<u8>, i: int) -> SymbolCounts
    decreases b.len() - i, 0int,
{
    if i < 0 || i >= b.len() {
        no_symbols()
    } else if b[i] == 123u8 {
        let end = close_brace_from(b, i);
        proof {
            lemma_close_brace_bounds(b, i);
        }
        if end >= b.len() {
            no_symbols()
        } else {
            add_counts(symbol_counts(b.subrange(i + 1, end)), counts_from(b, end + 1))
        }
    } else {
        counts_from(b, i + 1)
    }
}

/// Every `{` in `b` is followed, later on, by a `}`.
pub open spec fn braces_closed(b: Seq<u8>) -> bool {
    forall|i: int| 0 <= i < b.len() && b[i] == 123u8 ==> close_brace_from(b, i) < b.len()
}

/// Each count of `x` fits in a `u8`.
pub open spec fn counts_fit(x: SymbolCounts) -> bool {
    &&& 0 <= x.w <= 255
    &&& 0 <= x.u <= 255
    &&& 0 <= x.b <= 255
    &&& 0 <= x.r <= 255
    &&& 0 <= x.g <= 255
    &&& 0 <= x.c <= 255
    &&& 0 <= x.generic <= 255
}

/// The mana cost whose parts are the given counts.
pub open spec fn cost_of_counts(x: SymbolCounts) -> ManaCost {
    ManaCost {
        white: x.w as u8,
        blue: x.u as u8,
        black: x.b as u8,
        red: x.r as u8,
        green: x.g as u8,
        colorless: x.c as u8,
        generic: x.generic as u8,
    }
}

/// Counts are never negative.
proof fn lemma_counts_nonneg(b: Seq<u8>, i: int)
    ensures
        counts_from(b, i).w >= 0,
        counts_from(b, i).u >= 0,
        counts_from(b, i).b >= 0,
        counts_from(b, i).r >= 0,
        counts_from(b, i).g >= 0,
        counts_from(b, i).c >= 0,
        counts_from(b, i).generic >= 0,
    decreases b.len() - i,
{
    if i < 0 || i >= b.len() {
    } else if b[i] == 123u8 {
        let end = close_brace_from(b, i);
        lemma_close_brace_bounds(b, i);
        if end < b.len() {
            lemma_counts_nonneg(b, end + 1);
        }
    } else {
        lemma_counts_nonneg(b, i + 1);
    }
}

/// `close_brace_from` lands on a `}` at or after `i`, with none in between.
pub proof fn lemma_close_brace_bounds(b: Seq<u8>, i: int)
    requires
        0 <= i <= b.len(),
    ensures
        i <= close_brace_from(b, i) <= b.len(),
        close_brace_from(b, i) < b.len() ==> b[close_brace_from(b, i)] == 125u8,
        forall|j: int| i <= j < close_brace_from(b, i) ==> b[j] != 125u8,
    decreases b.len() - i,
{
    if i >= b.len() {
    } else if b[i] == 125u8 {
    } else {
        lemma_close_brace_bounds(b, i + 1);
    }
}

/// Parse one symbol (the bytes between braces) as a `u8` the way `str::parse::<u8>` does.
fn parse_u8_bytes(b: &[u8], start: usize, end: usize) -> (r: Option<u8>)
    requires
        start <= end <= b@.len(),
    ensures
        r == parse_u8_spec(b@.subrange(start as int, end as int)),
{
    let ghost s = b@.subrange(start as int, end as int);
    let mut i = start;
    if i < end && b[i] == 43u8 {
        i = i + 1;
    }
    let ghost digits = b@.subrange(i as int, end as int);
    assert(digits =~= sign_stripped(s));
    if i == end {
        return None;
    }
    let mut value: u32 = 0;
    let mut k = i;
    while k < end
        invariant
            i <= k <= end <= b@.len(),
            digits == b@.subrange(i as int, end as int),
            digits == sign_stripped(s),
            s == b@.subrange(start as int, end as int),
            i < end,
            forall|j: int| 0 <= j < k - i ==> is_digit(#[trigger] digits[j]),
            value == decimal_value(digits.subrange(0, k - i)),
            value <= 255,
        decreases end - k,
    {
        let c = b[k];
        assert(digits[k - i] == c);
        if c < 48u8 || c > 57u8 {
            assert(!is_digit(digits[k - i]));
            assert(!all_digits(digits));
            return None;
        }
        proof {
            assert(digits.subrange(0, k + 1 - i).drop_last() =~= digits.subrange(0, k - i));
        }
        value = value * 10 + (c - 48u8) as u32;
        if value > 255 {
            proof {
                if all_digits(digits) {
                    lemma_decimal_prefix_bound(digits, k + 1 - i);
                }
            }
            return None;
        }
        k = k + 1;
    }
    assert(digits.subrange(0, k - i) =~= digits);
    Some(value as u8)
}

/// The decimal value of a digit string is at least that of any of its prefixes.
proof fn lemma_decimal_prefix_bound(d: Seq<u8>, n: int)
    requires
        0 <= n <= d.len(),
        forall|j: int| 0 <= j < d.len() ==> is_digit(#[trigger] d[j]),
    ensures
        decimal_value(d) >= decimal_value(d.subrange(0, n)),
    decreases d.len() - n,
{
    if n == d.len() {
        assert(d.subrange(0, n) =~= d);
    } else {
        lemma_decimal_prefix_bound(d, n + 1);
        assert(d.subrange(0, n + 1).drop_last() =~= d.subrange(0, n));
        lemma_decimal_nonneg(d.subrange(0, n));
    }
}

/// Decimal values of digit strings are non-negative.
proof fn lemma_decimal_nonneg(d: Seq<u8>)
    requires
        forall|j: int| 0 <= j < d.len() ==> is_digit(#[trigger] d[j]),
    ensures
        decimal_value(d) >= 0,
    decreases d.len(),
{
    if d.len() > 0 {
        lemma_decimal_nonneg(d.drop_last());
    }
}

/// Parse a mana cost string like `"{2}{U}{U}"` into a `ManaCost`.
///
/// Each `{X}` group adds one symbol: `W`, `U`, `B`, `R`, `G` one mana of that color, `C`
/// one colorless mana, a number that many generic mana; any other group and any byte
/// outside braces is ignored.
pub fn parse_mana_cost(s: &str) -> (cost: ManaCost)
    requires
        braces_closed(s.spec_bytes()),
        counts_fit(counts_from(s.spec_bytes(), 0)),
    ensures
        cost == cost_of_counts(counts_from(s.spec_bytes(), 0)),
{
    let bytes = s.as_bytes();
    let ghost b = bytes@;
    let ghost total = counts_from(b, 0);
    let mut cost = ManaCost::zero();
    let mut i: usize = 0;
    while i < bytes.len()
        invariant
            b == bytes@,
            b == s.spec_bytes(),
            braces_closed(b),
            counts_fit(total),
            total == counts_from(b, 0),
            i <= b.len(),
            add_counts(
                SymbolCounts {
                    w: cost.white as int,
                    u: cost.blue as int,
                    b: cost.black as int,
                    r: cost.red as int,
                    g: cost.green as int,
                    c: cost.colorless as int,
                    generic: cost.generic as int,
                },
                counts_from(b, i as int),
            ) == total,
        decreases b.len() - i,
    {
        proof {
            lemma_counts_nonneg(b, i as int);
        }
        if bytes[i] == 123u8 {
            let ghost start = i;
            proof {
                lemma_close_brace_bounds(b, i as int);
            }
            let mut end = i;
            while end < bytes.len() && bytes[end] != 125u8
                invariant
                    b == bytes@,
                    start <= end <= b.len(),
                    close_brace_from(b, start as int) == close_brace_from(b, end as int),
                    start < b.len(),
                    close_brace_from(b, start as int) < b.len(),
                decreases b.len() - end,
            {
                end = end + 1;
            }
            proof {
                lemma_close_brace_bounds(b, start as int);
                lemma_counts_nonneg(b, end + 1);
            }
            let sym_len = end - (i + 1);
            if sym_len == 1 && bytes[i + 1] == 87u8 {
                assert(b.subrange(i + 1, end as int) =~= seq![87u8]);
                cost.white = cost.white + 1;
            } else if sym_len == 1 && bytes[i + 1] == 85u8 {
                assert(b.subrange(i + 1, end as int) =~= seq![85u8]);
                cost.blue = cost.blue + 1;
            } else if sym_len == 1 && bytes[i + 1] == 66u8 {
                assert(b.subrange(i + 1, end as int) =~= seq![66u8]);
                cost.black = cost.black + 1;
            } else if sym_len == 1 && bytes[i + 1] == 82u8 {
                assert(b.subrange(i + 1, end as int) =~= seq![82u8]);
                cost.red = cost.red + 1;
            } else if sym_len == 1 && bytes[i + 1] == 71u8 {
                assert(b.subrange(i + 1, end as int) =~= seq![71u8]);
                cost.green = cost.green + 1;
            } else if sym_len == 1 && bytes[i + 1] == 67u8 {
                assert(b.subrange(i + 1, end as int) =~= seq![67u8]);
                cost.colorless = cost.colorless + 1;
            } else {
                proof {
                    let sym = b.subrange(i + 1, end as int);
                    if sym_len == 1 {
                        assert(sym[0] == b[i + 1]);
                        assert(!(sym =~= seq![87u8]));
                        assert(!(sym =~= seq![85u8]));
                        assert(!(sym =~= seq![66u8]));
                        assert(!(sym =~= seq![82u8]));
                        assert(!(sym =~= seq![71u8]));
                        assert(!(sym =~= seq![67u8]));
                    } else {
                        assert(sym.len() != 1);
                    }
                }
                let parsed = parse_u8_bytes(bytes, i + 1, end);
                if let Some(v) = parsed {
                    cost.generic = cost.generic + v;
                }
            }
            i = end + 1;
        } else {
            i = i + 1;
        }
    }
    cost
}

} // verus!

verus! {

/// A successful payment spends exactly the cost's mana value, never raises any kind of
/// mana, and covers each colored and `{C}` requirement with mana of that kind.
pub proof fn law_payment_spends_mana_value(pool: ManaPool, cost: ManaCost)
    requires
        pool.covers(cost),
    ensures
        pool.paid(cost).sum() == pool.sum() - cost.value(),
        pool.paid(cost).white <= pool.white - cost.white,
        pool.paid(cost).blue <= pool.blue - cost.blue,
        pool.paid(cost).black <= pool.black - cost.black,
        pool.paid(cost).red <= pool.red - cost.red,
        pool.paid(cost).green <= pool.green - cost.green,
        pool.paid(cost).colorless <= pool.colorless - cost.colorless,
{
}

/// Any pool can pay the zero cost, and paying it leaves the pool unchanged.
pub proof fn law_zero_cost_is_free(pool: ManaPool)
    ensures
        pool.covers(zero_cost()),
        pool.paid(zero_cost()) == pool,
{
}

/// Adding mana of one kind raises the total by that amount and changes no other kind;
/// removing the same amount again restores the pool.
pub proof fn law_add_then_remove_restores(pool: ManaPool, color: Option<Color>, n: u8)
    requires
        pool.amount(color) + n <= u8::MAX,
    ensures
        ({
            let added = pool.with_amount(color, (pool.amount(color) + n) as u8);
            &&& added.sum() == pool.sum() + n
            &&& added.amount(color) == pool.amount(color) + n
            &&& forall|d: Option<Color>| d != color ==> #[trigger] added.amount(d) == pool.amount(d)
            &&& added.with_amount(color, (added.amount(color) - n) as u8) == pool
        }),
{
}

/// A pool that fails to cover a cost is left untouched by `pay`; one that covers it never
/// goes below zero in any kind (the result is well defined as `u8` values).
pub proof fn law_covering_pool_pays_without_underflow(pool: ManaPool, cost: ManaCost)
    requires
        pool.covers(cost),
    ensures
        pool.paid(cost).sum() >= 0,
        pool.spend_specific(cost).sum() >= cost.generic,
{
}

} // verus!

verus! {

/// Where the first `}` at or after `i` lies inside `x`, it lies at the same place in `x + y`.
proof fn lemma_close_brace_prefix(x: Seq<u8>, y: Seq<u8>, i: int)
    requires
        0 <= i,
        close_brace_from(x, i) < x.len(),
    ensures
        close_brace_from(x + y, i) == close_brace_from(x, i),
    decreases x.len() - i,
{
    if x[i] != 125u8 {
        lemma_close_brace_prefix(x, y, i + 1);
    }
}

/// Searching for `}` in the `y` part of `x + y` is searching in `y`.
proof fn lemma_close_brace_suffix(x: Seq<u8>, y: Seq<u8>, j: int)
    requires
        0 <= j,
    ensures
        close_brace_from(x + y, x.len() + j) == x.len() + close_brace_from(y, j),
    decreases y.len() - j,
{
    if j < y.len() && y[j] != 125u8 {
        lemma_close_brace_suffix(x, y, j + 1);
    }
}

/// Reading the `y` part of `x + y` is reading `y`.
proof fn lemma_counts_suffix(x: Seq<u8>, y: Seq<u8>, j: int)
    requires
        0 <= j,
    ensures
        counts_from(x + y, x.len() + j) == counts_from(y, j),
    decreases y.len() - j,
{
    let b = x + y;
    if j < y.len() {
        if y[j] == 123u8 {
            lemma_close_brace_suffix(x, y, j);
            lemma_close_brace_bounds(y, j);
            let end = close_brace_from(y, j);
            if end < y.len() {
                assert(b.subrange(x.len() + j + 1, x.len() + end) =~= y.subrange(j + 1, end));
                lemma_counts_suffix(x, y, end + 1);
            }
        } else {
            lemma_counts_suffix(x, y, j + 1);
        }
    }
}

/// Reading `x + y` from index `i` of `x` adds the counts of the rest of `x` to those of `y`.
proof fn lemma_counts_concat_from(x: Seq<u8>, y: Seq<u8>, i: int)
    requires
        0 <= i <= x.len(),
        braces_closed(x),
    ensures
        counts_from(x + y, i) == add_counts(counts_from(x, i), counts_from(y, 0)),
    decreases x.len() - i,
{
    let b = x + y;
    if i == x.len() {
        lemma_counts_suffix(x, y, 0);
        assert(add_counts(no_symbols(), counts_from(y, 0)) == counts_from(y, 0));
    } else if x[i] == 123u8 {
        let end = close_brace_from(x, i);
        lemma_close_brace_bounds(x, i);
        lemma_close_brace_prefix(x, y, i);
        assert(b.subrange(i + 1, end) =~= x.subrange(i + 1, end));
        lemma_counts_concat_from(x, y, end + 1);
    } else {
        lemma_counts_concat_from(x, y, i + 1);
    }
}

/// Parsing two mana-cost texts one after the other, the first with all its braces
/// closed, counts the sum of what each counts on its own, symbol by symbol.
pub proof fn law_concatenated_costs_add(x: Seq<u8>, y: Seq<u8>)
    requires
        braces_closed(x),
    ensures
        counts_from(x + y, 0) == add_counts(counts_from(x, 0), counts_from(y, 0)),
{
    lemma_counts_concat_from(x, y, 0);
}

} // verus!
