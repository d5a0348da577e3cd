//! Device-aware recommendation of catalog models.
//!
//! The fit of a model is judged by the ratio of its estimated peak RAM to
//! the device's memory, computed in `f64` and compared with the thresholds
//! 0.55, 0.78 and 0.95. The contracts state that comparison exactly, in
//! integers: how a `u64` becomes an `f64`, and which real quotients round to
//! at most each threshold.
use vstd::prelude::*;
use vstd::arithmetic::power2::{pow2, lemma_pow2_pos, lemma_pow2_unfold, lemma_pow2_adds, lemma_pow2_strictly_increases, lemma2_to64, lemma2_to64_rest};
use vstd::arithmetic::div_mod::{lemma_multiply_divide_lt, lemma_div_is_ordered, lemma_div_multiples_vanish, lemma_fundamental_div_mod};
use vstd::arithmetic::mul::{lemma_mul_upper_bound, lemma_mul_inequality};
use crate::domain::{ArtifactView, DeviceProfile, ModelArtifact, ModelRecommendation, RecommendationView, strings_view};
use crate::text::{owned, str_eq};

verus! {

/// The number of binary digits of `x`.
pub open spec fn bit_length(x: nat) -> nat
    decreases x,
{
    if x == 0 {
        0
    } else {
        1 + bit_length(x / 2)
    }
}

/// The value of `x as f64` for `x < 2^64`: `x` itself when it has at most
/// 53 binary digits, else `x` rounded to 53 significant binary digits, to
/// nearest with ties to even.
pub open spec fn f64_of(x: nat) -> nat {
    if bit_length(x) <= 53 {
        x
    } else {
        let unit = pow2((bit_length(x) - 53) as nat);
        let q = x / unit;
        let r = x % unit;
        let up = r > unit / 2 || (r == unit / 2 && q % 2 == 1);
        (if up {
            q + 1
        } else {
            q
        }) * unit
    }
}

/// Whether `(num as f64) / (den as f64) <= t` where `t` is the `f64`
/// `m / 2^53`, `m` even and `2^52 <= m < 2^53`. The quotient rounds to at
/// most `t` exactly when the real quotient is at most the midpoint between `t`
/// and the next `f64`, `(2m + 1) / 2^54` (a tie rounds to the even `m`). A
/// zero denominator gives infinity or NaN, which is never at most `t`.
pub open spec fn f64_ratio_at_most(num: u64, den: u64, m: nat) -> bool {
    let n = f64_of(num as nat);
    let d = f64_of(den as nat);
    d > 0 && n * pow2(54) <= (2 * m + 1) * d
}

/// `0.55_f64 * 2^53`.
pub const RECOMMENDED_LIMIT: u128 = 4953959590107546;

/// `0.78_f64 * 2^53`.
pub const POSSIBLE_LIMIT: u128 = 7025615418697974;

/// `0.95_f64 * 2^53`.
pub const LOADABLE_LIMIT: u128 = 8556839292003942;

proof fn lemma_bit_length_bound(x: nat)
    ensures
        x < pow2(bit_length(x)),
        x > 0 ==> pow2((bit_length(x) - 1) as nat) <= x,
    decreases x,
{
    lemma2_to64();
    if x > 0 {
        lemma_bit_length_bound(x / 2);
        lemma_pow2_unfold(bit_length(x));
        if x / 2 > 0 {
            lemma_pow2_unfold(bit_length(x / 2));
        }
    }
}

proof fn lemma_bit_length_at_most(x: nat, k: nat)
    requires
        x < pow2(k),
    ensures
        bit_length(x) <= k,
    decreases k,
{
    lemma2_to64();
    if x > 0 {
        if k == 0 {
            assert(false);
        } else {
            lemma_pow2_unfold(k);
            lemma_bit_length_at_most(x / 2, (k - 1) as nat);
        }
    }
}

/// `x as f64`, as an integer (see `f64_of`).
pub fn f64_value(x: u64) -> (v: u128)
    ensures
        v == f64_of(x as nat),
        v <= 0x1_0000_0000_0000_0000,
{
    proof {
        lemma2_to64();
        lemma_bit_length_at_most(x as nat, 64);
        lemma_bit_length_bound(x as nat);
    }
    let mut n: u32 = 0;
    let mut y: u64 = x;
    while y > 0
        invariant
            bit_length(x as nat) == n + bit_length(y as nat),
            bit_length(x as nat) <= 64,
        decreases y,
    {
        y = y / 2;
        n = n + 1;
    }
    if n <= 53 {
        return x as u128;
    }
    let s: u32 = n - 53;
    let mut unit: u128 = 1;
    let mut i: u32 = 0;
    while i < s
        invariant
            i <= s <= 11,
            unit == pow2(i as nat),
        decreases s - i,
    {
        proof {
            lemma2_to64();
            lemma_pow2_unfold((i + 1) as nat);
            lemma_pow2_strictly_increases(i as nat, 11);
        }
        unit = unit * 2;
        i = i + 1;
    }
    proof {
        lemma2_to64();
        lemma2_to64_rest();
        lemma_bit_length_bound(x as nat);
        assert(n == bit_length(x as nat));
        lemma_pow2_adds(s as nat, 53);
        assert(pow2(n as nat) == pow2(s as nat) * pow2(53));
        lemma_multiply_divide_lt(x as int, unit as int, pow2(53) as int);
        if s < 11 {
            lemma_pow2_strictly_increases(s as nat, 11);
        }
        assert(unit <= 2048);
    }
    let q: u128 = x as u128 / unit;
    let r: u128 = x as u128 % unit;
    let up = r > unit / 2 || (r == unit / 2 && q % 2 == 1);
    let q2: u128 = if up {
        q + 1
    } else {
        q
    };
    proof {
        assert(q < pow2(53));
        lemma_mul_upper_bound(q2 as int, pow2(53) as int, unit as int, 2048);
    }
    q2 * unit
}

/// Whether `(num as f64) / (den as f64)` is at most the `f64` `m / 2^53`
/// (see `f64_ratio_at_most`).
pub fn ratio_at_most(num: u64, den: u64, m: u128) -> (r: bool)
    requires
        m < 0x20_0000_0000_0000,
    ensures
        r == f64_ratio_at_most(num, den, m as nat),
{
    proof {
        lemma2_to64();
        lemma2_to64_rest();
    }
    let n = f64_value(num);
    let d = f64_value(den);
    if d == 0 {
        return false;
    }
    proof {
        lemma_mul_upper_bound(n as int, 0x1_0000_0000_0000_0000, pow2(54) as int, pow2(54) as int);
        lemma_mul_upper_bound((2 * m + 1) as int, 0x40_0000_0000_0000, d as int, 0x1_0000_0000_0000_0000);
    }
    assert(pow2(54) == 0x40_0000_0000_0000);
    let r = n * 0x40_0000_0000_0000 <= (2 * m + 1) * d;
    assert(r == (n * pow2(54) <= (2 * m + 1) * d));
    r
}

/// How well a model fits a device.
#[derive(Debug, Clone, Copy, PartialEq, Eq, Structural)]
pub enum Fit {
    RuntimeRequired,
    Recommended,
    Possible,
    NotRecommended,
    Blocked,
}

/// The memory that a device is judged by: its total memory, or 4 GiB when
/// that is unknown.
pub open spec fn available_memory(device: DeviceProfile) -> u64 {
    match device.total_memory_bytes {
        Some(bytes) => bytes,
        None => 0x1_0000_0000,
    }
}

/// The fit of a model with estimated peak RAM `peak` on a device with
/// `available` bytes: while the runtime is unreachable nothing can run;
/// otherwise the ratio `peak / available` (in `f64`) decides, at most 0.55
/// recommended, at most 0.78 possible, at most 0.95 not recommended, and
/// blocked above.
pub open spec fn fit_for(peak: u64, available: u64, reachable: bool) -> Fit {
    if !reachable {
        Fit::RuntimeRequired
    } else if f64_ratio_at_most(peak, available, RECOMMENDED_LIMIT as nat) {
        Fit::Recommended
    } else if f64_ratio_at_most(peak, available, POSSIBLE_LIMIT as nat) {
        Fit::Possible
    } else if f64_ratio_at_most(peak, available, LOADABLE_LIMIT as nat) {
        Fit::NotRecommended
    } else {
        Fit::Blocked
    }
}

/// The label of a fit.
pub open spec fn fit_label(fit: Fit) -> Seq<char> {
    match fit {
        Fit::RuntimeRequired => "runtime-required"@,
        Fit::Recommended => "recommended"@,
        Fit::Possible => "possible"@,
        Fit::NotRecommended => "not-recommended"@,
        Fit::Blocked => "blocked"@,
    }
}

/// The score of a fit.
pub open spec fn fit_score(fit: Fit) -> u8 {
    match fit {
        Fit::RuntimeRequired => 20,
        Fit::Recommended => 95,
        Fit::Possible => 70,
        Fit::NotRecommended => 40,
        Fit::Blocked => 0,
    }
}

/// The explanation shown with a fit.
pub open spec fn fit_reason(fit: Fit) -> Seq<char> {
    match fit {
        Fit::RuntimeRequired => "로컬 Ollama 런타임을 시작해야 설치와 대화를 사용할 수 있습니다."@,
        Fit::Recommended => "메모리 안전 여유를 포함해 장시간 실행에 적합합니다."@,
        Fit::Possible => "실행 가능하지만 긴 context나 다른 앱 사용 시 메모리 압력을 확인해야 합니다."@,
        Fit::NotRecommended => "적재 가능성이 있으나 swap 또는 OOM 위험이 높습니다."@,
        Fit::Blocked => "예상 peak RAM이 장치의 안전 한도를 초과합니다."@,
    }
}

/// The recommendation of artifact `a` for `device`, given the models the
/// runtime has installed.
pub open spec fn recommendation_for(
    a: ArtifactView,
    device: DeviceProfile,
    installed: Seq<Seq<char>>,
) -> RecommendationView {
    let fit = fit_for(a.estimated_peak_ram_bytes, available_memory(device), device.runtime_reachable);
    RecommendationView {
        artifact: a,
        fit: fit_label(fit),
        fit_score: fit_score(fit),
        reason: fit_reason(fit),
        installed: installed.contains(a.runtime_model),
    }
}

/// `a` comes strictly before `b`: a higher score, or the same score and a
/// smaller download.
pub open spec fn ranks_before(a: RecommendationView, b: RecommendationView) -> bool {
    a.fit_score > b.fit_score || (a.fit_score == b.fit_score && a.artifact.download_bytes
        < b.artifact.download_bytes)
}

/// Some position of `perm` holds `j`.
pub open spec fn lists_index(perm: Seq<int>, j: int) -> bool {
    exists|k: int| 0 <= k < perm.len() && perm[k] == j
}

/// `result` is `rows` reordered by `perm` (`result[k] == rows[perm[k]]`),
/// ordered by `ranks_before`, with rows of equal rank in their order in `rows`.
pub open spec fn is_stable_ranking(
    result: Seq<RecommendationView>,
    rows: Seq<RecommendationView>,
    perm: Seq<int>,
) -> bool {
    &&& result.len() == rows.len()
    &&& perm.len() == rows.len()
    &&& forall|k: int|
        0 <= k < perm.len() ==> 0 <= #[trigger] perm[k] < rows.len() && result[k] == rows[perm[k]]
    &&& forall|k: int, l: int| 0 <= k < l < perm.len() ==> perm[k] != perm[l]
    &&& forall|j: int| 0 <= j < rows.len() ==> #[trigger] lists_index(perm, j)
    &&& forall|k: int, l: int|
        0 <= k < l < result.len() ==> !ranks_before(#[trigger] result[l], #[trigger] result[k])
    &&& forall|k: int, l: int|
        0 <= k < l < result.len() && !ranks_before(#[trigger] result[k], #[trigger] result[l])
            ==> perm[k] < perm[l]
}

/// The recommendations of each catalog entry, in catalog order.
pub open spec fn recommendation_rows(
    catalog: Seq<ModelArtifact>,
    device: DeviceProfile,
    installed: Seq<Seq<char>>,
) -> Seq<RecommendationView> {
    catalog.map_values(|a: ModelArtifact| recommendation_for(a@, device, installed))
}

/// The models of a list of recommendations.
pub open spec fn recommendations_view(v: Seq<ModelRecommendation>) -> Seq<RecommendationView> {
    v.map_values(|r: ModelRecommendation| r@)
}

fn classify(peak: u64, available: u64, reachable: bool) -> (f: Fit)
    ensures
        f == fit_for(peak, available, reachable),
{
    if !reachable {
        Fit::RuntimeRequired
    } else if ratio_at_most(peak, available, RECOMMENDED_LIMIT) {
        Fit::Recommended
    } else if ratio_at_most(peak, available, POSSIBLE_LIMIT) {
        Fit::Possible
    } else if ratio_at_most(peak, available, LOADABLE_LIMIT) {
        Fit::NotRecommended
    } else {
        Fit::Blocked
    }
}

fn describe(fit: Fit) -> (r: (String, u8, String))
    ensures
        r.0@ == fit_label(fit),
        r.1 == fit_score(fit),
        r.2@ == fit_reason(fit),
{
    match fit {
        Fit::RuntimeRequired => (
            owned("runtime-required"),
            20,
            owned("로컬 Ollama 런타임을 시작해야 설치와 대화를 사용할 수 있습니다."),
        ),
        Fit::Recommended => (
            owned("recommended"),
            95,
            owned("메모리 안전 여유를 포함해 장시간 실행에 적합합니다."),
        ),
        Fit::Possible => (
            owned("possible"),
            70,
            owned("실행 가능하지만 긴 context나 다른 앱 사용 시 메모리 압력을 확인해야 합니다."),
        ),
        Fit::NotRecommended => (
            owned("not-recommended"),
            40,
            owned("적재 가능성이 있으나 swap 또는 OOM 위험이 높습니다."),
        ),
        Fit::Blocked => (owned("blocked"), 0, owned("예상 peak RAM이 장치의 안전 한도를 초과합니다.")),
    }
}

/// Whether `name` is among `names`.
pub fn contains_string(names: &[String], name: &str) -> (r: bool)
    ensures
        r == strings_view(names@).contains(name@),
{
    let mut i: usize = 0;
    while i < names.len()
        invariant
            i <= names@.len(),
            forall|k: int| 0 <= k < i ==> names@[k]@ != name@,
        decreases names.len() - i,
    {
        if str_eq(names[i].as_str(), name) {
            assert(strings_view(names@)[i as int] == name@);
            return true;
        }
        i = i + 1;
    }
    assert forall|k: int| 0 <= k < strings_view(names@).len() implies strings_view(names@)[k]
        != name@ by {
        assert(strings_view(names@)[k] == names@[k]@);
    }
    false
}

fn recommendation(artifact: &ModelArtifact, device: &DeviceProfile, installed: &[String]) -> (r:
    ModelRecommendation)
    ensures
        r@ == recommendation_for(artifact@, *device, strings_view(installed@)),
{
    let available = match device.total_memory_bytes {
        Some(bytes) => bytes,
        None => 4 * 1024 * 1024 * 1024,
    };
    let fit = classify(artifact.estimated_peak_ram_bytes, available, device.runtime_reachable);
    let (label, score, reason) = describe(fit);
    ModelRecommendation {
        installed: contains_string(installed, artifact.runtime_model.as_str()),
        artifact: artifact.duplicate(),
        fit: label,
        fit_score: score,
        reason,
    }
}

fn ranks_before_exec(a: &ModelRecommendation, b: &ModelRecommendation) -> (r: bool)
    ensures
        r == ranks_before(a@, b@),
{
    a.fit_score > b.fit_score || (a.fit_score == b.fit_score && a.artifact.download_bytes
        < b.artifact.download_bytes)
}

/// Recommends each catalog model for `device`: its fit by peak memory (see
/// `fit_for`), whether it is installed (`installed` lists the runtime's
/// model names), best fit first and, at equal fit, the smaller download
/// first, otherwise in catalog order.
pub fn recommend(catalog: &[ModelArtifact], device: &DeviceProfile, installed: &[String]) -> (result:
    Vec<ModelRecommendation>)
    ensures
        exists|perm: Seq<int>|
            is_stable_ranking(
                recommendations_view(result@),
                recommendation_rows(catalog@, *device, strings_view(installed@)),
                perm,
            ),
        result@.len() == catalog@.len(),
        forall|k: int|
            0 <= k < result@.len() ==> ((#[trigger] result@[k]).installed <==> exists|j: int|
                0 <= j < installed@.len() && installed@[j]@ == result@[k].artifact.runtime_model@),
{
    let ghost rows = recommendation_rows(catalog@, *device, strings_view(installed@));
    let mut result: Vec<ModelRecommendation> = Vec::new();
    let ghost mut perm: Seq<int> = Seq::empty();
    let ghost mut place: Seq<int> = Seq::empty();
    let mut i: usize = 0;
    while i < catalog.len()
        invariant
            i <= catalog@.len(),
            rows == recommendation_rows(catalog@, *device, strings_view(installed@)),
            result@.len() == i,
            perm.len() == i,
            place.len() == i,
            forall|j: int| 0 <= j < i ==> 0 <= #[trigger] place[j] < i && perm[place[j]] == j,
            forall|k: int|
                0 <= k < i ==> 0 <= #[trigger] perm[k] < i && recommendations_view(result@)[k]
                    == rows[perm[k]],
            forall|k: int, l: int| 0 <= k < l < i ==> perm[k] != perm[l],
            forall|k: int, l: int|
                0 <= k < l < i ==> !ranks_before(
                    #[trigger] recommendations_view(result@)[l],
                    #[trigger] recommendations_view(result@)[k],
                ),
            forall|k: int, l: int|
                0 <= k < l < i && !ranks_before(
                    #[trigger] recommendations_view(result@)[k],
                    #[trigger] recommendations_view(result@)[l],
                ) ==> perm[k] < perm[l],
        decreases catalog.len() - i,
    {
        let row = recommendation(&catalog[i], device, installed);
        let ghost old_view = recommendations_view(result@);
        let ghost old_perm = perm;
        let mut pos: usize = 0;
        while pos < result.len() && !ranks_before_exec(&row, &result[pos])
            invariant
                pos <= result@.len(),
                old_view == recommendations_view(result@),
                forall|k: int| 0 <= k < pos ==> !ranks_before(row@, #[trigger] old_view[k]),
            decreases result.len() - pos,
        {
            pos = pos + 1;
        }
        result.insert(pos, row);
        proof {
            let old_place = place;
            perm = old_perm.insert(pos as int, i as int);
            place = Seq::new(
                (i + 1) as nat,
                |j: int|
                    if j == i {
                        pos as int
                    } else if old_place[j] < pos {
                        old_place[j]
                    } else {
                        old_place[j] + 1
                    },
            );
            assert forall|j: int| 0 <= j < i + 1 implies 0 <= #[trigger] place[j] < i + 1 && perm[place[j]]
                == j by {
                if j < i {
                    if old_place[j] < pos {
                        assert(perm[old_place[j]] == old_perm[old_place[j]]);
                    } else {
                        assert(perm[old_place[j] + 1] == old_perm[old_place[j]]);
                    }
                }
            }
            let nv = recommendations_view(result@);
            assert(rows[i as int] == row@);
            assert(nv =~= old_view.insert(pos as int, row@));
            assert forall|k: int, l: int| 0 <= k < l < i + 1 implies !ranks_before(
                #[trigger] nv[l],
                #[trigger] nv[k],
            ) by {
                if k < pos && l == pos {
                } else if k == pos && l > pos {
                    assert(nv[l] == old_view[l - 1]);
                    if pos < l - 1 {
                        assert(!ranks_before(old_view[l - 1], old_view[pos as int]));
                    }
                } else if l < pos {
                    assert(nv[k] == old_view[k] && nv[l] == old_view[l]);
                } else if k > pos {
                    assert(nv[k] == old_view[k - 1] && nv[l] == old_view[l - 1]);
                } else {
                    assert(nv[k] == old_view[k] && nv[l] == old_view[l - 1]);
                }
            }
            assert forall|k: int, l: int|
                0 <= k < l < i + 1 && !ranks_before(#[trigger] nv[k], #[trigger] nv[l]) implies perm[k]
                < perm[l] by {
                if k < pos && l == pos {
                    assert(perm[l] == i);
                    assert(perm[k] == old_perm[k]);
                } else if k == pos && l > pos {
                    assert(nv[l] == old_view[l - 1]);
                    if pos < l - 1 {
                        assert(!ranks_before(old_view[l - 1], old_view[pos as int]));
                    }
                } else if l < pos {
                    assert(nv[k] == old_view[k] && nv[l] == old_view[l]);
                } else if k > pos {
                    assert(nv[k] == old_view[k - 1] && nv[l] == old_view[l - 1]);
                } else {
                    assert(nv[k] == old_view[k] && nv[l] == old_view[l - 1]);
                }
            }
            assert forall|k: int| 0 <= k < i + 1 implies 0 <= #[trigger] perm[k] < i + 1 && nv[k]
                == rows[perm[k]] by {
                if k < pos {
                    assert(nv[k] == old_view[k]);
                } else if k > pos {
                    assert(nv[k] == old_view[k - 1]);
                }
            }
        }
        i = i + 1;
    }
    assert forall|j: int| 0 <= j < rows.len() implies #[trigger] lists_index(perm, j) by {
        assert(perm[place[j]] == j);
    }
    assert(is_stable_ranking(recommendations_view(result@), rows, perm));
    assert forall|k: int| 0 <= k < result@.len() implies ((#[trigger] result@[k]).installed
        <==> exists|j: int|
        0 <= j < installed@.len() && installed@[j]@ == result@[k].artifact.runtime_model@) by {
        let a = catalog@[perm[k]];
        assert(recommendations_view(result@)[k] == result@[k]@);
        assert(rows[perm[k]] == recommendation_for(a@, *device, strings_view(installed@)));
        law_installed_flag_names_runtime_model(a@, *device, strings_view(installed@));
        let names = strings_view(installed@);
        if result@[k].installed {
            let j = choose|j: int| 0 <= j < names.len() && names[j] == a@.runtime_model;
            assert(installed@[j]@ == names[j]);
        } else {
            assert forall|j: int| 0 <= j < installed@.len() implies installed@[j]@
                != result@[k].artifact.runtime_model@ by {
                assert(names[j] == installed@[j]@);
            }
        }
    }
    result
}

/// A recommendation row carries its artifact unchanged, and it is marked
/// installed exactly when the runtime lists the artifact's runtime model
/// name among its installed models.
pub proof fn law_installed_flag_names_runtime_model(
    a: ArtifactView,
    device: DeviceProfile,
    installed: Seq<Seq<char>>,
)
    ensures
        recommendation_for(a, device, installed).artifact == a,
        recommendation_for(a, device, installed).installed <==> exists|j: int|
            0 <= j < installed.len() && installed[j] == a.runtime_model,
{
}

/// Rows at index `i` go before rows at index `j` in any stable ranking:
/// by rank, then by catalog order.
pub open spec fn index_before(rows: Seq<RecommendationView>, i: int, j: int) -> bool {
    ranks_before(rows[i], rows[j]) || (!ranks_before(rows[j], rows[i]) && i < j)
}

proof fn lemma_ranking_increasing(
    result: Seq<RecommendationView>,
    rows: Seq<RecommendationView>,
    perm: Seq<int>,
    k: int,
    l: int,
)
    requires
        is_stable_ranking(result, rows, perm),
        0 <= k < l < perm.len(),
    ensures
        index_before(rows, perm[k], perm[l]),
{
    assert(result[k] == rows[perm[k]] && result[l] == rows[perm[l]]);
    assert(!ranks_before(result[l], result[k]));
    if !ranks_before(result[k], result[l]) {
        assert(perm[k] < perm[l]);
    }
}

proof fn lemma_rankings_agree_below(
    r1: Seq<RecommendationView>,
    r2: Seq<RecommendationView>,
    rows: Seq<RecommendationView>,
    p1: Seq<int>,
    p2: Seq<int>,
    k: int,
)
    requires
        is_stable_ranking(r1, rows, p1),
        is_stable_ranking(r2, rows, p2),
        0 <= k <= rows.len(),
    ensures
        forall|m: int| 0 <= m < k ==> p1[m] == p2[m],
    decreases k,
{
    if k > 0 {
        lemma_rankings_agree_below(r1, r2, rows, p1, p2, k - 1);
        let n = k - 1;
        let a = p1[n];
        let b = p2[n];
        if a != b {
            assert(0 <= a < rows.len() && 0 <= b < rows.len());
            assert(lists_index(p2, a) && lists_index(p1, b));
            let m2 = choose|m: int| 0 <= m < p2.len() && p2[m] == a;
            let m1 = choose|m: int| 0 <= m < p1.len() && p1[m] == b;
            if m2 < n {
                assert(p1[m2] == p2[m2]);
            }
            if m1 < n {
                assert(p2[m1] == p1[m1]);
            }
            lemma_ranking_increasing(r2, rows, p2, n, m2);
            lemma_ranking_increasing(r1, rows, p1, n, m1);
        }
    }
}

/// The recommendation order is deterministic: for the same catalog rows
/// there is exactly one stable ranking.
pub proof fn law_ranking_is_unique(
    r1: Seq<RecommendationView>,
    r2: Seq<RecommendationView>,
    rows: Seq<RecommendationView>,
    p1: Seq<int>,
    p2: Seq<int>,
)
    requires
        is_stable_ranking(r1, rows, p1),
        is_stable_ranking(r2, rows, p2),
    ensures
        r1 == r2,
{
    lemma_rankings_agree_below(r1, r2, rows, p1, p2, rows.len() as int);
    assert forall|k: int| 0 <= k < r1.len() implies r1[k] == r2[k] by {
        assert(r1[k] == rows[p1[k]]);
        assert(r2[k] == rows[p2[k]]);
    }
    assert(r1 =~= r2);
}

proof fn lemma_bit_length_monotone(x: nat, y: nat)
    requires
        x <= y,
    ensures
        bit_length(x) <= bit_length(y),
{
    lemma_bit_length_bound(y);
    lemma_bit_length_at_most(x, bit_length(y));
}

/// For a value with more than 53 binary digits: its quotient by the rounding
/// unit has exactly 53 digits, and the rounded value lies between the two
/// powers of two around it.
proof fn lemma_rounding_quotient(x: nat)
    requires
        bit_length(x) > 53,
    ensures
        ({
            let unit = pow2((bit_length(x) - 53) as nat);
            &&& unit > 0
            &&& pow2(52) <= x / unit < pow2(53)
            &&& pow2(52) * unit == pow2((bit_length(x) - 1) as nat)
            &&& pow2(53) * unit == pow2(bit_length(x))
        }),
        pow2((bit_length(x) - 1) as nat) <= f64_of(x) <= pow2(bit_length(x)),
{
    let e = (bit_length(x) - 53) as nat;
    let unit = pow2(e);
    lemma_bit_length_bound(x);
    lemma_pow2_pos(e);
    lemma_pow2_adds(e, 53);
    lemma_pow2_adds(e, 52);
    assert(e + 53 == bit_length(x));
    assert(e + 52 == (bit_length(x) - 1) as nat);
    assert(pow2(52) * unit == pow2((bit_length(x) - 1) as nat)) by (nonlinear_arith)
        requires
            pow2(e + 52) == pow2(e) * pow2(52),
            unit == pow2(e),
            e + 52 == (bit_length(x) - 1) as nat,
    ;
    assert(pow2(53) * unit == pow2(bit_length(x))) by (nonlinear_arith)
        requires
            pow2(e + 53) == pow2(e) * pow2(53),
            unit == pow2(e),
            e + 53 == bit_length(x),
    ;
    lemma_multiply_divide_lt(x as int, unit as int, pow2(53) as int);
    lemma_div_is_ordered((pow2(52) * unit) as int, x as int, unit as int);
    lemma_div_multiples_vanish(pow2(52) as int, unit as int);
    assert(unit * pow2(52) == pow2(52) * unit) by (nonlinear_arith);
    let q = x / unit;
    let r = x % unit;
    let up = r > unit / 2 || (r == unit / 2 && q % 2 == 1);
    let g: nat = if up {
        q + 1
    } else {
        q
    };
    assert(f64_of(x) == g * unit);
    lemma_mul_inequality(pow2(52) as int, q as int, unit as int);
    lemma_mul_inequality(q as int, g as int, unit as int);
    lemma_mul_inequality(g as int, pow2(53) as int, unit as int);
}

/// Rounding to `f64` keeps the order of `u64` values.
proof fn lemma_f64_of_monotone(x: nat, y: nat)
    requires
        x <= y,
    ensures
        f64_of(x) <= f64_of(y),
{
    lemma_bit_length_monotone(x, y);
    lemma_bit_length_bound(x);
    lemma_bit_length_bound(y);
    let bx = bit_length(x);
    let by = bit_length(y);
    if by <= 53 {
    } else if bx == by {
        lemma_rounding_quotient(x);
        let unit = pow2((bx - 53) as nat);
        lemma_div_is_ordered(x as int, y as int, unit as int);
        let qx = x / unit;
        let qy = y / unit;
        let gx: nat = if x % unit > unit / 2 || (x % unit == unit / 2 && qx % 2 == 1) {
            qx + 1
        } else {
            qx
        };
        let gy: nat = if y % unit > unit / 2 || (y % unit == unit / 2 && qy % 2 == 1) {
            qy + 1
        } else {
            qy
        };
        assert(f64_of(x) == gx * unit);
        assert(f64_of(y) == gy * unit);
        if qx == qy {
            lemma_fundamental_div_mod(x as int, unit as int);
            lemma_fundamental_div_mod(y as int, unit as int);
            assert(x % unit <= y % unit);
        }
        assert(gx <= gy);
        lemma_mul_inequality(gx as int, gy as int, unit as int);
    } else {
        lemma_rounding_quotient(y);
        assert(f64_of(x) <= pow2(bx)) by {
            if bx > 53 {
                lemma_rounding_quotient(x);
            }
        }
        if bx < (by - 1) as nat {
            lemma_pow2_strictly_increases(bx, (by - 1) as nat);
        }
    }
}

proof fn lemma_ratio_monotone(n1: u64, n2: u64, d1: u64, d2: u64, m: nat)
    requires
        n2 <= n1,
        d1 <= d2,
        f64_ratio_at_most(n1, d1, m),
    ensures
        f64_ratio_at_most(n2, d2, m),
{
    lemma_f64_of_monotone(n2 as nat, n1 as nat);
    lemma_f64_of_monotone(d1 as nat, d2 as nat);
    lemma_mul_inequality(f64_of(n2 as nat) as int, f64_of(n1 as nat) as int, pow2(54) as int);
    lemma_mul_inequality(f64_of(d1 as nat) as int, f64_of(d2 as nat) as int, (2 * m + 1) as int);
    assert((2 * m + 1) * f64_of(d1 as nat) <= (2 * m + 1) * f64_of(d2 as nat)) by (nonlinear_arith)
        requires
            f64_of(d1 as nat) * (2 * m + 1) <= f64_of(d2 as nat) * (2 * m + 1),
    ;
}

/// More memory never makes a model fit worse, and neither does a smaller
/// peak RAM estimate: the fit score does not drop when the device's memory
/// grows or the model's peak RAM shrinks.
pub proof fn law_fit_is_monotone(
    peak1: u64,
    peak2: u64,
    available1: u64,
    available2: u64,
    reachable: bool,
)
    requires
        peak2 <= peak1,
        available1 <= available2,
    ensures
        fit_score(fit_for(peak2, available2, reachable)) >= fit_score(
            fit_for(peak1, available1, reachable),
        ),
{
    if f64_ratio_at_most(peak1, available1, RECOMMENDED_LIMIT as nat) {
        lemma_ratio_monotone(peak1, peak2, available1, available2, RECOMMENDED_LIMIT as nat);
    }
    if f64_ratio_at_most(peak1, available1, POSSIBLE_LIMIT as nat) {
        lemma_ratio_monotone(peak1, peak2, available1, available2, POSSIBLE_LIMIT as nat);
    }
    if f64_ratio_at_most(peak1, available1, LOADABLE_LIMIT as nat) {
        lemma_ratio_monotone(peak1, peak2, available1, available2, LOADABLE_LIMIT as nat);
    }
}

/// Whether `model` is the runtime name of a catalog entry (only those may be
/// installed).
pub fn catalog_allows(catalog: &[ModelArtifact], model: &str) -> (r: bool)
    ensures
        r == exists|i: int| 0 <= i < catalog@.len() && catalog@[i].runtime_model@ == model@,
{
    let mut i: usize = 0;
    while i < catalog.len()
        invariant
            i <= catalog@.len(),
            forall|k: int| 0 <= k < i ==> catalog@[k].runtime_model@ != model@,
        decreases catalog.len() - i,
    {
        if str_eq(catalog[i].runtime_model.as_str(), model) {
            return true;
        }
        i = i + 1;
    }
    false
}

} // verus!
