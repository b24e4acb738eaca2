//! The registry of known models: context windows, prices and the compact form
//! of token counts.

use vstd::arithmetic::power2::pow2;
use vstd::prelude::*;

use crate::text::{
    char_count, contains_string, contains_text, dec, dec_string, digit, digit_of, lowercase, to_lowercase,
};
use crate::types::UsageStats;

verus! {

/// What is known of a model. Prices are in hundredths of a yuan per million
/// tokens.
#[derive(Debug, Clone, Copy)]
pub struct ModelInfo {
    /// A lower-case part of the names of this model.
    pub key: &'static str,
    pub display_name: &'static str,
    pub context_window: usize,
    pub input_price: u64,
    pub output_price: u64,
    pub tool_support: bool,
    pub provider_hint: &'static str,
}

/// What the record of a model holds.
pub struct InfoView {
    pub key: Seq<char>,
    pub display_name: Seq<char>,
    pub context_window: usize,
    pub input_price: u64,
    pub output_price: u64,
    pub tool_support: bool,
    pub provider_hint: Seq<char>,
}

impl View for ModelInfo {
    type V = InfoView;

    open spec fn view(&self) -> InfoView {
        InfoView {
            key: self.key@,
            display_name: self.display_name@,
            context_window: self.context_window,
            input_price: self.input_price,
            output_price: self.output_price,
            tool_support: self.tool_support,
            provider_hint: self.provider_hint@,
        }
    }
}

pub open spec fn info_views(v: Seq<ModelInfo>) -> Seq<InfoView> {
    Seq::new(v.len(), |i: int| v[i]@)
}

pub open spec fn info_of(
    key: Seq<char>,
    context_window: usize,
    input_price: u64,
    output_price: u64,
    tool_support: bool,
    provider_hint: Seq<char>,
) -> InfoView {
    InfoView {
        key,
        display_name: key,
        context_window,
        input_price,
        output_price,
        tool_support,
        provider_hint,
    }
}

fn info(
    key: &'static str,
    context_window: usize,
    input_price: u64,
    output_price: u64,
    tool_support: bool,
    provider_hint: &'static str,
) -> (r: ModelInfo)
    ensures
        r@ == info_of(key@, context_window, input_price, output_price, tool_support, provider_hint@),
{
    ModelInfo { key, display_name: key, context_window, input_price, output_price, tool_support, provider_hint }
}

/// The known models. A key is the part of a model's name that tells it apart.
pub open spec fn known_models() -> Seq<InfoView> {
    seq![
        info_of("glm-5.2-flash"@, 128_000, 50, 200, true, "zhipu"@),
        info_of("glm-5.2"@, 200_000, 400, 1600, true, "zhipu"@),
        info_of("glm-4.7"@, 200_000, 200, 800, true, "zhipu"@),
        info_of("kimi-for-coding"@, 1_000_000, 800, 2400, true, "moonshot"@),
        info_of("kimi-k3"@, 1_000_000, 800, 2400, true, "moonshot"@),
        info_of("deepseek-v4"@, 128_000, 200, 800, true, "deepseek"@),
        info_of("deepseek-r2"@, 128_000, 400, 1600, true, "deepseek"@),
        info_of("qwen3-max"@, 1_000_000, 600, 1800, true, "alibaba"@),
        info_of("qwen3-plus"@, 131_072, 80, 300, true, "alibaba"@),
        info_of("sonnet-5"@, 200_000, 2200, 11000, true, "anthropic"@),
        info_of("haiku-4.5"@, 200_000, 550, 2750, true, "anthropic"@),
        info_of("gpt-5.2-mini"@, 256_000, 280, 1100, true, "openai"@),
        info_of("gpt-5.2"@, 400_000, 1200, 4800, true, "openai"@),
        info_of("mock"@, 8_192, 0, 0, false, "test"@),
    ]
}

/// The known models.
pub fn registry() -> (r: Vec<ModelInfo>)
    ensures
        info_views(r@) == known_models(),
{
    let mut v: Vec<ModelInfo> = Vec::new();
    v.push(info("glm-5.2-flash", 128_000, 50, 200, true, "zhipu"));
    v.push(info("glm-5.2", 200_000, 400, 1600, true, "zhipu"));
    v.push(info("glm-4.7", 200_000, 200, 800, true, "zhipu"));
    v.push(info("kimi-for-coding", 1_000_000, 800, 2400, true, "moonshot"));
    v.push(info("kimi-k3", 1_000_000, 800, 2400, true, "moonshot"));
    v.push(info("deepseek-v4", 128_000, 200, 800, true, "deepseek"));
    v.push(info("deepseek-r2", 128_000, 400, 1600, true, "deepseek"));
    v.push(info("qwen3-max", 1_000_000, 600, 1800, true, "alibaba"));
    v.push(info("qwen3-plus", 131_072, 80, 300, true, "alibaba"));
    v.push(info("sonnet-5", 200_000, 2200, 11000, true, "anthropic"));
    v.push(info("haiku-4.5", 200_000, 550, 2750, true, "anthropic"));
    v.push(info("gpt-5.2-mini", 256_000, 280, 1100, true, "openai"));
    v.push(info("gpt-5.2", 400_000, 1200, 4800, true, "openai"));
    v.push(info("mock", 8_192, 0, 0, false, "test"));
    assert(info_views(v@) =~= known_models());
    v
}

/// The position of the model that a lower-case name stands for: of those whose
/// key it contains the one with the longest key, the last of several.
pub open spec fn best_match(models: Seq<InfoView>, name: Seq<char>) -> Option<int>
    decreases models.len(),
{
    if models.len() == 0 {
        None
    } else {
        let n = models.len() - 1;
        let before = best_match(models.drop_last(), name);
        if contains_text(name, models.last().key) && (before is None || models.last().key.len()
            >= models[before->Some_0].key.len()) {
            Some(n as int)
        } else {
            before
        }
    }
}

/// The record of the model with this name, in any case of its letters.
pub open spec fn model_named(name: Seq<char>) -> Option<InfoView> {
    match best_match(known_models(), lowercase(name)) {
        Some(i) => Some(known_models()[i]),
        None => None,
    }
}

proof fn lemma_best_match(models: Seq<InfoView>, name: Seq<char>)
    ensures
        match best_match(models, name) {
            Some(i) => {
                &&& 0 <= i < models.len()
                &&& contains_text(name, models[i].key)
                &&& forall|j: int|
                    0 <= j < models.len() && contains_text(name, #[trigger] models[j].key)
                        ==> models[j].key.len() <= models[i].key.len()
            },
            None => forall|j: int| 0 <= j < models.len() ==> !contains_text(name, #[trigger] models[j].key),
        },
    decreases models.len(),
{
    if models.len() > 0 {
        let t = models.drop_last();
        lemma_best_match(t, name);
        assert forall|j: int| 0 <= j < t.len() implies t[j].key == #[trigger] models[j].key by {}
    }
}

/// The model that is found for a name has the longest key that the name
/// contains, and none is found only where the name contains no key.
pub proof fn law_longest_key_wins(name: Seq<char>)
    ensures
        match model_named(name) {
            Some(m) => {
                &&& known_models().contains(m)
                &&& contains_text(lowercase(name), m.key)
                &&& forall|j: int|
                    0 <= j < known_models().len() && contains_text(
                        lowercase(name),
                        #[trigger] known_models()[j].key,
                    ) ==> known_models()[j].key.len() <= m.key.len()
            },
            None => forall|j: int|
                0 <= j < known_models().len() ==> !contains_text(
                    lowercase(name),
                    #[trigger] known_models()[j].key,
                ),
        },
{
    lemma_best_match(known_models(), lowercase(name));
}

/// Finds a model in a list by its lower-case name.
pub fn lookup_in(models: &Vec<ModelInfo>, name: &str) -> (r: Option<ModelInfo>)
    ensures
        match best_match(info_views(models@), name@) {
            Some(i) => r is Some && r->Some_0@ == info_views(models@)[i],
            None => r is None,
        },
{
    let ghost all = info_views(models@);
    let mut best: Option<ModelInfo> = None;
    let mut i: usize = 0;
    assert(all.take(0) =~= Seq::<InfoView>::empty());
    while i < models.len()
        invariant
            i <= models.len(),
            all == info_views(models@),
            match best_match(all.take(i as int), name@) {
                Some(k) => 0 <= k < i && best is Some && best->Some_0@ == all[k],
                None => best is None,
            },
        decreases models.len() - i,
    {
        let m: ModelInfo = models[i];
        proof {
            assert(all.take(i as int + 1).drop_last() =~= all.take(i as int));
            assert(all.take(i as int + 1).last() == m@);
        }
        let longer: bool = match best {
            Some(b) => char_count(m.key) >= char_count(b.key),
            None => true,
        };
        if contains_string(name, m.key) && longer {
            best = Some(m);
        }
        i += 1;
    }
    assert(all.take(i as int) =~= all);
    best
}

/// Finds a model by its name: in any case of its letters, and the longest key
/// counts.
pub fn lookup(model_name: &str) -> (r: Option<ModelInfo>)
    ensures
        match r {
            Some(m) => model_named(model_name@) == Some(m@),
            None => model_named(model_name@) is None,
        },
{
    let name: String = to_lowercase(model_name);
    let models: Vec<ModelInfo> = registry();
    lookup_in(&models, name.as_str())
}

/// What usage costs with a model, in units of ten to the minus eight yuan.
pub open spec fn cost_of(m: InfoView, usage: UsageStats) -> int {
    m.input_price * usage.input_tokens + m.output_price * usage.output_tokens
}

/// Estimates what usage costs, in units of ten to the minus eight yuan; nothing
/// is said of unknown models.
pub fn estimate_cost(model: &str, usage: &UsageStats) -> (r: Option<u128>)
    ensures
        match model_named(model@) {
            Some(m) => r is Some && r->Some_0 as int == cost_of(m, *usage),
            None => r is None,
        },
{
    match lookup(model) {
        Some(m) => {
            let a: u128 = m.input_price as u128;
            let b: u128 = usage.input_tokens as u128;
            let c: u128 = m.output_price as u128;
            let d: u128 = usage.output_tokens as u128;
            proof {
                law_prices_are_small(model@);
                assert(a * b <= 11000 * 0xffff_ffff_ffff_ffff) by (nonlinear_arith)
                    requires
                        a <= 11000,
                        b <= 0xffff_ffff_ffff_ffff,
                ;
                assert(c * d <= 11000 * 0xffff_ffff_ffff_ffff) by (nonlinear_arith)
                    requires
                        c <= 11000,
                        d <= 0xffff_ffff_ffff_ffff,
                ;
            }
            Some(a * b + c * d)
        },
        None => None,
    }
}

/// No price is above 110 yuan.
pub proof fn law_prices_are_small(name: Seq<char>)
    ensures
        model_named(name) matches Some(m) ==> m.input_price <= 11000 && m.output_price <= 11000,
{
    lemma_best_match(known_models(), lowercase(name));
}

// ---------- compact token counts ----------

/// The nearest whole number to `num / den`; the even one of two.
pub open spec fn round_even(num: nat, den: nat) -> nat {
    let q = num / den;
    let rest = num % den;
    if 2 * rest > den || (2 * rest == den && q % 2 == 1) {
        q + 1
    } else {
        q
    }
}

/// How often `n` is halved until it has at most 53 binary digits.
pub open spec fn spare_bits(n: nat) -> nat
    decreases n,
{
    if n < 0x20_0000_0000_0000 {
        0
    } else {
        1 + spare_bits(n / 2)
    }
}

/// The number of 53 binary digits that is nearest to `n`.
pub open spec fn as_double(n: nat) -> nat {
    round_even(n, pow2(spare_bits(n))) * pow2(spare_bits(n))
}

/// How often `n` is doubled until `n / unit` has 53 binary digits before the
/// point.
pub open spec fn quotient_shift(n: nat, unit: nat) -> nat
    decreases
            (if n < unit * 0x10_0000_0000_0000 {
                unit * 0x10_0000_0000_0000 - n
            } else {
                0
            }),
{
    if n == 0 || n >= unit * 0x10_0000_0000_0000 {
        0
    } else {
        1 + quotient_shift(n * 2, unit)
    }
}

/// The tenths of `n / unit` in double precision: the quotient of 53 binary
/// digits, rounded to one decimal.
pub open spec fn double_tenths(n: nat, unit: nat) -> nat {
    let x = as_double(n);
    let s = quotient_shift(x, unit);
    let m = round_even(x * pow2(s), unit);
    round_even(m * 10, pow2(s))
}

/// Tenths with a decimal point.
pub open spec fn tenths_text(t: nat) -> Seq<char> {
    dec(t / 10) + "."@ + seq![digit(t % 10)]
}

/// A count in a compact form: thousands and millions with one decimal.
pub open spec fn compact(n: u64, kilo: Seq<char>, mega: Seq<char>) -> Seq<char> {
    if n >= 1_000_000 {
        tenths_text(double_tenths(n as nat, 1_000_000)) + mega
    } else if n >= 1000 {
        tenths_text(double_tenths(n as nat, 1000)) + kilo
    } else {
        dec(n as nat)
    }
}

fn round_even_of(num: u128, den: u128) -> (r: u128)
    requires
        0 < den < 0x8000_0000_0000_0000_0000_0000_0000_0000,
        num < u128::MAX,
    ensures
        r == round_even(num as nat, den as nat),
        r <= num + 1,
{
    let q: u128 = num / den;
    let rest: u128 = num % den;
    assert(q <= num) by (nonlinear_arith)
        requires
            q == num / den,
            den > 0,
    ;
    if 2 * rest > den || (2 * rest == den && q % 2 == 1) {
        q + 1
    } else {
        q
    }
}

/// A power of two, for a small exponent.
fn pow2_of(k: u32) -> (r: u128)
    requires
        k <= 100,
    ensures
        r == pow2(k as nat),
        r > 0,
        r <= 0x10_0000_0000_0000_0000_0000_0000,
{
    let mut r: u128 = 1;
    let mut i: u32 = 0;
    proof {
        vstd::arithmetic::power2::lemma2_to64();
        lemma_pow2_100();
    }
    while i < k
        invariant
            i <= k <= 100,
            r == pow2(i as nat),
            r > 0,
            pow2(100) == 0x10_0000_0000_0000_0000_0000_0000,
        decreases k - i,
    {
        proof {
            vstd::arithmetic::power2::lemma_pow2_unfold((i + 1) as nat);
            if i + 1 < 100 {
                vstd::arithmetic::power2::lemma_pow2_strictly_increases((i + 1) as nat, 100);
            }
        }
        r = r * 2;
        i += 1;
    }
    proof {
        if k < 100 {
            vstd::arithmetic::power2::lemma_pow2_strictly_increases(k as nat, 100);
        }
    }
    r
}

proof fn lemma_pow2_100()
    ensures
        pow2(100) == 0x10_0000_0000_0000_0000_0000_0000,
{
    vstd::arithmetic::power2::lemma2_to64();
    vstd::arithmetic::power2::lemma_pow2_adds(64, 36);
    assert(pow2(36) == 0x10_0000_0000) by {
        vstd::arithmetic::power2::lemma2_to64_rest();
    }
    assert(pow2(64) == 0x1_0000_0000_0000_0000) by {
        vstd::arithmetic::power2::lemma2_to64_rest();
    }
}

proof fn lemma_spare_bits(n: nat, b: nat)
    requires
        n < 0x20_0000_0000_0000 * pow2(b),
    ensures
        spare_bits(n) <= b,
    decreases b,
{
    if n >= 0x20_0000_0000_0000 {
        vstd::arithmetic::power2::lemma2_to64();
        if b == 0 {
            assert(false);
        } else {
            vstd::arithmetic::power2::lemma_pow2_unfold(b);
            lemma_spare_bits(n / 2, (b - 1) as nat);
        }
    }
}

fn as_double_of(n: u64) -> (r: u128)
    ensures
        r == as_double(n as nat),
        r <= n + 2048,
        n > 0 ==> r > 0,
{
    proof {
        vstd::arithmetic::power2::lemma2_to64();
        lemma_spare_bits(n as nat, 11);
    }
    let mut k: u32 = 0;
    let mut m: u64 = n;
    while m >= 0x20_0000_0000_0000
        invariant
            spare_bits(n as nat) == k + spare_bits(m as nat),
            spare_bits(n as nat) <= 11,
        decreases m,
    {
        m = m / 2;
        k += 1;
    }
    let p: u128 = pow2_of(k);
    let q: u128 = round_even_of(n as u128, p);
    proof {
        vstd::arithmetic::power2::lemma2_to64();
        if k < 11 {
            vstd::arithmetic::power2::lemma_pow2_strictly_increases(k as nat, 11);
        }
        assert(p <= 2048);
        assert(q <= n as nat / p as nat + 1);
        assert((n as nat / p as nat) * p <= n) by (nonlinear_arith)
            requires
                p > 0,
        ;
        assert(q * p <= n + p) by (nonlinear_arith)
            requires
                q <= n as nat / p as nat + 1,
                (n as nat / p as nat) * p <= n,
                p > 0,
        ;
        if k == 0 {
            assert(p == 1);
            assert(n as nat / 1 == n && n as nat % 1 == 0);
            assert(q == n);
            assert(q * p == q) by (nonlinear_arith)
                requires
                    p == 1,
            ;
        } else {
            lemma_big_enough(n as nat, k as nat);
            assert(n as nat / p as nat >= 1) by (nonlinear_arith)
                requires
                    n as nat >= p,
                    p > 0,
            ;
            assert(q * p > 0) by (nonlinear_arith)
                requires
                    q >= 1,
                    p > 0,
            ;
        }
    }
    q * p
}

proof fn lemma_big_enough(n: nat, k: nat)
    requires
        spare_bits(n) == k,
        k > 0,
    ensures
        n >= pow2(k),
    decreases k,
{
    vstd::arithmetic::power2::lemma2_to64();
    vstd::arithmetic::power2::lemma_pow2_unfold(k);
    if k > 1 {
        lemma_big_enough(n / 2, (k - 1) as nat);
    } else {
        assert(pow2(1) == 2);
    }
}

fn double_tenths_of(n: u64, unit: u64) -> (r: u128)
    requires
        n > 0,
        0 < unit <= 1_000_000,
        unit <= n < unit * 0x2000_0000_0000,
    ensures
        r == double_tenths(n as nat, unit as nat),
        r <= u64::MAX,
{
    let x: u128 = as_double_of(n);
    let mut y: u128 = x;
    let mut s: u32 = 0;
    let limit: u128 = unit as u128 * 0x10_0000_0000_0000;
    proof {
        vstd::arithmetic::power2::lemma2_to64();
        lemma_double_close(n as nat, unit as nat);
        assert(x * pow2(0) == x) by (nonlinear_arith)
            requires
                pow2(0) == 1,
        ;
    }
    while y < limit
        invariant
            y > 0,
            limit == unit * 0x10_0000_0000_0000,
            unit <= 1_000_000,
            x >= unit,
            s <= 52,
            y == x * pow2(s as nat),
            y < limit ==> s < 52,
            y < 2 * limit,
            quotient_shift(x as nat, unit as nat) == s + quotient_shift(y as nat, unit as nat),
        decreases
                (if y < limit {
                    limit - y
                } else {
                    0
                }),
    {
        proof {
            vstd::arithmetic::power2::lemma_pow2_unfold((s + 1) as nat);
            assert(x * pow2((s + 1) as nat) == 2 * (x * pow2(s as nat))) by (nonlinear_arith)
                requires
                    pow2((s + 1) as nat) == 2 * pow2(s as nat),
            ;
            if s + 1 == 52 {
                assert(pow2(52) == 0x10_0000_0000_0000) by {
                    vstd::arithmetic::power2::lemma2_to64_rest();
                }
                assert(x * pow2(52) >= unit * 0x10_0000_0000_0000) by (nonlinear_arith)
                    requires
                        x >= unit,
                        pow2(52) == 0x10_0000_0000_0000,
                ;
            }
        }
        y = y * 2;
        s += 1;
    }
    let p: u128 = pow2_of(s);
    let m: u128 = round_even_of(y, unit as u128);
    proof {
        assert(quotient_shift(y as nat, unit as nat) == 0);
        lemma_tenths_small(unit as nat, s as nat, y as nat, m as nat);
    }
    round_even_of(m * 10, p)
}

proof fn lemma_double_close(n: nat, unit: nat)
    requires
        n >= unit,
        0 < unit <= 1_000_000,
        n <= u64::MAX,
    ensures
        as_double(n) >= unit,
{
    let k = spare_bits(n);
    vstd::arithmetic::power2::lemma2_to64();
    if k == 0 {
        assert(pow2(0) == 1);
        assert(round_even(n, 1) == n);
        assert(n * 1 == n);
    } else {
        lemma_spare_bits(n, 11);
        lemma_double_low(n, k);
    }
}

proof fn lemma_double_low(n: nat, k: nat)
    requires
        0 < k <= 11,
        k == spare_bits(n),
    ensures
        as_double(n) >= 1_000_000,
{
    vstd::arithmetic::power2::lemma2_to64();
    if k < 11 {
        vstd::arithmetic::power2::lemma_pow2_strictly_increases(k, 11);
    }
    vstd::arithmetic::power2::lemma_pow2_pos(k);
    let p = pow2(k);
    let q = round_even(n, p);
    assert(q >= n / p);
    assert(q * p >= (n / p) * p) by (nonlinear_arith)
        requires
            q >= n / p,
            p > 0,
    ;
    assert((n / p) * p > n - p) by (nonlinear_arith)
        requires
            p > 0,
    ;
}

proof fn lemma_tenths_small(unit: nat, s: nat, y: nat, m: nat)
    requires
        0 < unit <= 1_000_000,
        s <= 52,
        y < 2 * unit * 0x10_0000_0000_0000,
        m == round_even(y, unit),
    ensures
        m < 0x8_0000_0000_0000_0000_0000,
        round_even(m * 10, pow2(s)) <= u64::MAX,
{
    vstd::arithmetic::power2::lemma2_to64();
    vstd::arithmetic::power2::lemma_pow2_pos(s);
    let q = y / unit;
    assert(m <= q + 1);
    assert(q * unit <= y) by (nonlinear_arith)
        requires
            q == y / unit,
            unit > 0,
    ;
    let p = pow2(s);
    assert(q < 0x20_0000_0000_0000) by (nonlinear_arith)
        requires
            q * unit < 2 * unit * 0x10_0000_0000_0000,
            unit > 0,
    ;
    let t = round_even(m * 10, p);
    assert(t <= m * 10 / p + 1);
    assert(m * 10 / p <= m * 10) by (nonlinear_arith)
        requires
            p >= 1,
    ;
}

fn tenths_string(t: u64) -> (r: String)
    ensures
        r@ == tenths_text(t as nat),
{
    let mut s: String = dec_string(t / 10);
    s.append(".");
    let ghost before = s@;
    s.push(digit_of((t % 10) as u8));
    assert(s@ =~= before + seq![digit(t as nat % 10)]);
    s
}

/// A count in a compact form: thousands and millions with one decimal.
pub fn compact_string(n: u64, kilo: &str, mega: &str) -> (r: String)
    ensures
        r@ == compact(n, kilo@, mega@),
{
    if n >= 1_000_000 {
        let mut s: String = tenths_string(double_tenths_of(n, 1_000_000) as u64);
        s.append(mega);
        s
    } else if n >= 1000 {
        let mut s: String = tenths_string(double_tenths_of(n, 1000) as u64);
        s.append(kilo);
        s
    } else {
        dec_string(n)
    }
}

/// A token count in a compact form, as `999`, `1.2k` or `1.0M`.
pub fn format_tokens(n: u64) -> (r: String)
    ensures
        r@ == compact(n, "k"@, "M"@),
{
    compact_string(n, "k", "M")
}

} // verus!
