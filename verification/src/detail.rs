//! Session-detail bookkeeping: grouping by logout date, ordering, and
//! traffic totals, plus the record forms handed across the foreign
//! boundary.

use vstd::prelude::*;
use chrono::Datelike;
use crate::types::{NetDetail, NetUser};

verus! {

broadcast use vstd::seq_lib::to_multiset_remove, vstd::seq_lib::to_multiset_insert, vstd::seq_lib::to_multiset_contains, vstd::multiset::group_multiset_axioms, vstd::multiset::group_multiset_properties;

/// The orderings the account-management endpoint offers.
#[derive(Clone, Copy, PartialEq, Eq, Structural, Debug)]
pub enum NetDetailOrder {
    LoginTime,
    LogoutTime,
    Flux,
}

/// One day's worth of sessions: the logout day as days since the epoch,
/// and the summed traffic.
#[derive(Clone, Copy, PartialEq, Eq, Structural, Debug)]
pub struct DetailGroup {
    pub logout_date: i64,
    pub flux: u64,
}

/// One hour-of-day's worth of sessions across days.
#[derive(Clone, Copy, PartialEq, Eq, Structural, Debug)]
pub struct DetailGroupByTime {
    pub logout_start_time: u32,
    pub flux: u64,
}

/// An online record in foreign-boundary form: primitive fields and a
/// sentinel for the missing hardware address.
pub struct OnlineUser {
    pub address: u32,
    pub login_time: i64,
    pub flux: u64,
    pub mac_address: [u8; 6],
    pub has_mac: bool,
    pub is_local: bool,
}

/// Saturating addition of two traffic counters.
pub open spec fn sat_add(a: u64, b: u64) -> u64 {
    if a + b > u64::MAX {
        u64::MAX
    } else {
        (a + b) as u64
    }
}

/// The day a timestamp falls in, as days since the epoch (floor).
pub open spec fn spec_epoch_day(secs: int) -> int {
    secs / 86400
}

/// Compute the epoch day of a timestamp.
pub fn epoch_day(secs: i64) -> (r: i64)
    ensures
        r as int == spec_epoch_day(secs as int),
{
    if secs >= 0 {
        let d = (secs as u64) / 86400;
        proof {
            assert(d as int == spec_epoch_day(secs as int));
        }
        d as i64
    } else {
        let neg = (-(secs as i128)) as u128;
        let q = (neg + 86399) / 86400;
        proof {
            let a = neg as int;
            let q0 = (a + 86399) / 86400;
            vstd::arithmetic::div_mod::lemma_fundamental_div_mod(a + 86399, 86400);
            let r1 = (a + 86399) % 86400;
            assert(a + 86399 == 86400 * q0 + r1);
            let r0 = 86399 - r1;
            assert(0 <= r0 < 86400);
            assert(-a == 86400 * (-q0) + r0);
            vstd::arithmetic::div_mod::lemma_fundamental_div_mod_converse_div(
                -a,
                86400,
                -q0,
                r0,
            );
            assert((-a) / 86400 == -q0);
            assert(secs as int == -a);
            assert(1 <= q0 <= 0x8000000000000000);
        }
        -(q as i64)
    }
}

/// The consecutive by-logout-day grouping of a detail list, traffic
/// summed saturating within each run.
pub open spec fn spec_groups(s: Seq<NetDetail>) -> Seq<DetailGroup>
    decreases s.len(),
{
    if s.len() == 0 {
        Seq::empty()
    } else {
        let g = spec_groups(s.drop_last());
        let d = s.last();
        let day = spec_epoch_day(d.logout_time as int);
        if g.len() > 0 && g.last().logout_date == day {
            g.update(
                g.len() - 1,
                DetailGroup { logout_date: g.last().logout_date, flux: sat_add(g.last().flux, d.flux) },
            )
        } else {
            g.push(DetailGroup { logout_date: day as i64, flux: d.flux })
        }
    }
}

/// The epoch day of any 64-bit timestamp fits 64 bits itself.
proof fn lemma_epoch_day_in_range(secs: i64)
    ensures
        i64::MIN <= spec_epoch_day(secs as int) <= i64::MAX,
{
    vstd::arithmetic::div_mod::lemma_fundamental_div_mod(secs as int, 86400);
}

/// Group consecutive details that share a logout day, summing traffic.
pub fn group_by_logout_day(details: &Vec<NetDetail>) -> (r: Vec<DetailGroup>)
    ensures
        r@ == spec_groups(details@),
{
    let mut r: Vec<DetailGroup> = Vec::new();
    let mut i: usize = 0;
    proof {
        assert(details@.take(0) =~= Seq::<NetDetail>::empty());
    }
    while i < details.len()
        invariant
            i <= details@.len(),
            r@ == spec_groups(details@.take(i as int)),
        decreases details@.len() - i,
    {
        let d = details[i];
        let day = epoch_day(d.logout_time);
        proof {
            lemma_epoch_day_in_range(d.logout_time);
            assert(details@.take(i as int + 1).drop_last() =~= details@.take(i as int));
            assert(details@.take(i as int + 1).last() == details@[i as int]);
        }
        let n = r.len();
        if n > 0 && r[n - 1].logout_date == day {
            let last = r[n - 1];
            let summed = if u64::MAX - last.flux >= d.flux {
                last.flux + d.flux
            } else {
                u64::MAX
            };
            r.set(n - 1, DetailGroup { logout_date: last.logout_date, flux: summed });
            proof {
                assert(summed == sat_add(last.flux, d.flux));
                assert(r@ =~= spec_groups(details@.take(i as int + 1)));
            }
        } else {
            r.push(DetailGroup { logout_date: day, flux: d.flux });
            proof {
                assert(r@ =~= spec_groups(details@.take(i as int + 1)));
            }
        }
        i = i + 1;
    }
    proof {
        assert(details@.take(details@.len() as int) =~= details@);
    }
    r
}

/// The saturating traffic total of a detail list.
pub open spec fn spec_total_flux(s: Seq<NetDetail>) -> u64
    decreases s.len(),
{
    if s.len() == 0 {
        0
    } else {
        sat_add(spec_total_flux(s.drop_last()), s.last().flux)
    }
}

/// Sum the traffic of a detail list, saturating at the counter's top.
pub fn total_flux(details: &Vec<NetDetail>) -> (r: u64)
    ensures
        r == spec_total_flux(details@),
{
    let mut acc: u64 = 0;
    let mut i: usize = 0;
    proof {
        assert(details@.take(0) =~= Seq::<NetDetail>::empty());
    }
    while i < details.len()
        invariant
            i <= details@.len(),
            acc == spec_total_flux(details@.take(i as int)),
        decreases details@.len() - i,
    {
        let d = details[i];
        proof {
            assert(details@.take(i as int + 1).drop_last() =~= details@.take(i as int));
            assert(details@.take(i as int + 1).last() == details@[i as int]);
        }
        if u64::MAX - acc >= d.flux {
            acc = acc + d.flux;
        } else {
            acc = u64::MAX;
        }
        i = i + 1;
    }
    proof {
        assert(details@.take(details@.len() as int) =~= details@);
    }
    acc
}

/// The saturating traffic total of a group list.
pub open spec fn spec_total_group_flux(s: Seq<DetailGroup>) -> u64
    decreases s.len(),
{
    if s.len() == 0 {
        0
    } else {
        sat_add(spec_total_group_flux(s.drop_last()), s.last().flux)
    }
}

/// Sum the traffic of a group list, saturating at the counter's top.
pub fn total_group_flux(groups: &Vec<DetailGroup>) -> (r: u64)
    ensures
        r == spec_total_group_flux(groups@),
{
    let mut acc: u64 = 0;
    let mut i: usize = 0;
    proof {
        assert(groups@.take(0) =~= Seq::<DetailGroup>::empty());
    }
    while i < groups.len()
        invariant
            i <= groups@.len(),
            acc == spec_total_group_flux(groups@.take(i as int)),
        decreases groups@.len() - i,
    {
        let d = groups[i];
        proof {
            assert(groups@.take(i as int + 1).drop_last() =~= groups@.take(i as int));
            assert(groups@.take(i as int + 1).last() == groups@[i as int]);
        }
        if u64::MAX - acc >= d.flux {
            acc = acc + d.flux;
        } else {
            acc = u64::MAX;
        }
        i = i + 1;
    }
    proof {
        assert(groups@.take(groups@.len() as int) =~= groups@);
    }
    acc
}

/// Whether `a` may stand before `b` in the requested order.
pub open spec fn pair_le(a: (u64, DetailGroup), b: (u64, DetailGroup), descending: bool) -> bool {
    if descending {
        a.0 >= b.0
    } else {
        a.0 <= b.0
    }
}

/// Whether the element before must move past the current one to honour
/// the requested order.
fn needs_move(prev: u64, cur: u64, descending: bool) -> (r: bool)
    ensures
        r == if descending {
            prev < cur
        } else {
            prev > cur
        },
{
    if descending {
        prev < cur
    } else {
        prev > cur
    }
}

/// Whether a keyed list is ordered.
pub open spec fn sorted_pairs(s: Seq<(u64, DetailGroup)>, descending: bool) -> bool {
    forall|i: int, j: int| 0 <= i < j < s.len() ==> pair_le(#[trigger] s[i], #[trigger] s[j], descending)
}

/// Sort a keyed group list by its key, stably enough for the reports:
/// the result is ordered and holds exactly the same keyed groups.
pub fn sort_pairs(v: &mut Vec<(u64, DetailGroup)>, descending: bool)
    ensures
        sorted_pairs(final(v)@, descending),
        final(v)@.to_multiset() == old(v)@.to_multiset(),
{
    if v.len() <= 1 {
        return ;
    }
    let mut i: usize = 1;
    while i < v.len()
        invariant
            1 <= i <= v@.len(),
            v@.len() == old(v)@.len(),
            sorted_pairs(v@.take(i as int), descending),
            v@.to_multiset() == old(v)@.to_multiset(),
        decreases v@.len() - i,
    {
        let x = v[i];
        let mut p: usize = i;
        while p > 0 && needs_move(v[p - 1].0, x.0, descending)
            invariant
                p <= i < v@.len(),
                sorted_pairs(v@.take(i as int), descending),
                x == v@[i as int],
                forall|k: int| p <= k < i ==> pair_le(x, #[trigger] v@[k], descending),
            decreases p,
        {
            p = p - 1;
        }
        let ghost s = v@;
        v.remove(i);
        v.insert(p, x);
        proof {
            assert(s.remove(i as int).insert(p as int, x).to_multiset() == s.to_multiset()) by {
                assert(s[i as int] == x);
                assert(s.to_multiset().contains(x));
                assert(s.remove(i as int).to_multiset() == s.to_multiset().remove(x));
                assert(s.remove(i as int).insert(p as int, x).to_multiset() == s.remove(
                    i as int,
                ).to_multiset().insert(x));
                assert(s.to_multiset().remove(x).insert(x) =~= s.to_multiset());
            }
            let t = v@;
            assert(t == s.remove(i as int).insert(p as int, x));
            assert forall|a: int, b: int| 0 <= a < b < i + 1 implies pair_le(
                #[trigger] t[a],
                #[trigger] t[b],
                descending,
            ) by {
                assert(forall|k: int| 0 <= k < p ==> t[k] == s[k]);
                assert(t[p as int] == x);
                assert(forall|k: int| p < k <= i ==> t[k] == s[k - 1]);
                if p > 0 {
                    assert(pair_le(s[p - 1], x, descending));
                }
                assert(forall|k: int| p <= k < i ==> pair_le(x, s[k], descending));
            }
            assert(sorted_pairs(t.take(i as int + 1), descending));
        }
        i = i + 1;
    }
    proof {
        assert(v@.take(v@.len() as int) =~= v@);
    }
}

/// What the discovery of a calendar day-of-month returns for a day
/// counted from the common era's first day: a function of that number
/// alone.
pub uninterp spec fn day_of_month_of(days_ce: int) -> u32;

/// Relies on chrono's NaiveDate::from_num_days_from_ce_opt and
/// Datelike::day: the day of the month, between 1 and 31, of the given
/// common-era day number; days outside chrono's range answer 1.
#[verifier::external_body]
pub(crate) fn day_of_month_ce(days_ce: i32) -> (r: u32)
    ensures
        r == day_of_month_of(days_ce as int),
        1 <= r <= 31,
{
    chrono::NaiveDate::from_num_days_from_ce_opt(days_ce).map(|d| d.day()).unwrap_or(1)
}

/// The day of the month of an epoch day, totalized: epoch days whose
/// common-era number leaves the 32-bit range answer 1.
pub open spec fn spec_day_of_month(epoch_day: int) -> u32 {
    if i32::MIN <= epoch_day + 719163 <= i32::MAX {
        day_of_month_of(epoch_day + 719163)
    } else {
        1u32
    }
}

/// The calendar day-of-month an epoch day falls on.
pub fn day_of_month(epoch_day: i64) -> (r: u32)
    ensures
        r == spec_day_of_month(epoch_day as int),
        1 <= r <= 31,
{
    if epoch_day >= (i32::MIN as i64) - 719163 && epoch_day <= (i32::MAX as i64) - 719163 {
        let ce = (epoch_day + 719163) as i32;
        day_of_month_ce(ce)
    } else {
        1
    }
}

/// The sort key a group gets under an order: its traffic for the
/// traffic order, its logout day's day-of-month otherwise.
pub open spec fn group_sort_key(g: DetailGroup, order: NetDetailOrder) -> u64 {
    match order {
        NetDetailOrder::Flux => g.flux,
        _ => spec_day_of_month(g.logout_date as int) as u64,
    }
}

/// A group paired with its sort key.
pub open spec fn keyed_groups(s: Seq<DetailGroup>, order: NetDetailOrder) -> Seq<
    (u64, DetailGroup),
> {
    s.map_values(|g: DetailGroup| (group_sort_key(g, order), g))
}

/// Group a detail list by logout day and order the groups as requested:
/// by traffic when the order asks for it (ascending, or descending when
/// asked), by descending day of the month for a descending date order,
/// and exactly as they come otherwise. The result always holds exactly
/// the groups of [`spec_groups`], keyed and counted.
pub fn group_details(details: &Vec<NetDetail>, order: NetDetailOrder, descending: bool) -> (r: Vec<
    DetailGroup,
>)
    ensures
        keyed_groups(r@, order).to_multiset() == keyed_groups(
            spec_groups(details@),
            order,
        ).to_multiset(),
        order is Flux ==> sorted_pairs(keyed_groups(r@, order), descending),
        !(order is Flux) && descending ==> sorted_pairs(keyed_groups(r@, order), true),
        !(order is Flux) && !descending ==> r@ == spec_groups(details@),
{
    let grouped = group_by_logout_day(details);
    let sort_needed = match order {
        NetDetailOrder::Flux => true,
        _ => descending,
    };
    if !sort_needed {
        return grouped;
    }
    let desc_flag = match order {
        NetDetailOrder::Flux => descending,
        _ => true,
    };
    let mut keyed: Vec<(u64, DetailGroup)> = Vec::new();
    let mut i: usize = 0;
    proof {
        assert(keyed@ =~= keyed_groups(grouped@.take(0), order));
    }
    while i < grouped.len()
        invariant
            i <= grouped@.len(),
            keyed@ == keyed_groups(grouped@.take(i as int), order),
        decreases grouped@.len() - i,
    {
        let g = grouped[i];
        let key = match order {
            NetDetailOrder::Flux => g.flux,
            _ => day_of_month(g.logout_date) as u64,
        };
        keyed.push((key, g));
        proof {
            assert(key == group_sort_key(grouped@[i as int], order));
            assert(keyed_groups(grouped@.take(i as int + 1), order) =~= keyed@);
        }
        i = i + 1;
    }
    proof {
        assert(grouped@.take(grouped@.len() as int) =~= grouped@);
    }
    let ghost orig_keyed = keyed@;
    sort_pairs(&mut keyed, desc_flag);
    proof {
        lemma_key_consistent(keyed@, orig_keyed, order);
    }
    let mut out: Vec<DetailGroup> = Vec::new();
    let mut j: usize = 0;
    while j < keyed.len()
        invariant
            j <= keyed@.len(),
            out@ == keyed@.take(j as int).map_values(|p: (u64, DetailGroup)| p.1),
        decreases keyed@.len() - j,
    {
        out.push(keyed[j].1);
        proof {
            assert(keyed@.take(j as int + 1).map_values(|p: (u64, DetailGroup)| p.1) =~= out@);
        }
        j = j + 1;
    }
    proof {
        assert(keyed@.take(keyed@.len() as int) =~= keyed@);
        assert(keyed_groups(out@, order) =~= keyed@);
    }
    out
}

/// Every pair of a reordering of consistently-keyed pairs is itself
/// consistently keyed.
proof fn lemma_key_consistent(
    sorted: Seq<(u64, DetailGroup)>,
    orig: Seq<(u64, DetailGroup)>,
    order: NetDetailOrder,
)
    requires
        sorted.to_multiset() == orig.to_multiset(),
        forall|j: int|
            0 <= j < orig.len() ==> (#[trigger] orig[j]).0 == group_sort_key(orig[j].1, order),
    ensures
        forall|i: int|
            0 <= i < sorted.len() ==> (#[trigger] sorted[i]).0 == group_sort_key(
                sorted[i].1,
                order,
            ),
{
    assert forall|i: int| 0 <= i < sorted.len() implies (#[trigger] sorted[i]).0
        == group_sort_key(sorted[i].1, order) by {
        assert(sorted.contains(sorted[i]));
        assert(sorted.to_multiset().count(sorted[i]) > 0);
        assert(orig.to_multiset().count(sorted[i]) > 0);
        assert(orig.contains(sorted[i]));
        let j = choose|j: int| 0 <= j < orig.len() && orig[j] == sorted[i];
        assert(orig[j].0 == group_sort_key(orig[j].1, order));
    }
}

/// The display emphasis class of a traffic counter.
#[derive(Clone, Copy, PartialEq, Eq, Structural, Debug)]
pub enum FluxLevel {
    Zero,
    Moderate,
    Heavy,
}

/// The emphasis class of a counter: zero, under the threshold, or at
/// and over it. The threshold is twenty billion bytes for totals and
/// two billion for single records.
pub open spec fn spec_flux_level(flux: u64, total: bool) -> FluxLevel {
    if flux == 0 {
        FluxLevel::Zero
    } else if flux < (if total {
        20000000000u64
    } else {
        2000000000u64
    }) {
        FluxLevel::Moderate
    } else {
        FluxLevel::Heavy
    }
}

/// Classify a traffic counter for display emphasis.
pub fn flux_level(flux: u64, total: bool) -> (r: FluxLevel)
    ensures
        r == spec_flux_level(flux, total),
{
    if flux == 0 {
        FluxLevel::Zero
    } else if flux < (if total {
        20000000000u64
    } else {
        2000000000u64
    }) {
        FluxLevel::Moderate
    } else {
        FluxLevel::Heavy
    }
}

/// Whether two hardware addresses are the same.
pub fn mac_eq(a: &[u8; 6], b: &[u8; 6]) -> (r: bool)
    ensures
        r == (a@ =~= b@),
{
    let mut i: usize = 0;
    while i < 6
        invariant
            i <= 6,
            forall|k: int| 0 <= k < i ==> a@[k] == b@[k],
        decreases 6 - i,
    {
        if a[i] != b[i] {
            return false;
        }
        i = i + 1;
    }
    proof {
        assert(a@ =~= b@);
    }
    true
}

impl OnlineUser {
    /// The foreign-boundary form of an online record: primitive copies
    /// of the fields, a sentinel for a missing hardware address, and
    /// the is-local mark set exactly when the record's address is one
    /// of the machine's own.
    pub fn new(u: &NetUser, mac_addrs: &Vec<[u8; 6]>) -> (r: Self)
        ensures
            r.address == u.address,
            r.login_time == u.login_time,
            r.flux == u.flux,
            r.has_mac == (u.mac_address is Some),
            u.mac_address matches Some(m) ==> r.mac_address@ == m@,
            u.mac_address is None ==> r.mac_address@ =~= seq![0u8, 0u8, 0u8, 0u8, 0u8, 0u8],
            r.is_local == (u.mac_address matches Some(m) && exists|k: int|
                0 <= k < mac_addrs@.len() && (#[trigger] mac_addrs@[k])@ =~= m@),
    {
        let (mac, has_mac): ([u8; 6], bool) = match &u.mac_address {
            Some(m) => (*m, true),
            None => ([0u8, 0u8, 0u8, 0u8, 0u8, 0u8], false),
        };
        let mut is_local = false;
        if has_mac {
            let mut k: usize = 0;
            while k < mac_addrs.len() && !is_local
                invariant
                    k <= mac_addrs@.len(),
                    u.mac_address matches Some(m) && mac@ == m@,
                    is_local ==> (exists|t: int|
                        0 <= t < mac_addrs@.len() && (#[trigger] mac_addrs@[t])@ =~= mac@),
                    !is_local ==> (forall|t: int|
                        0 <= t < k ==> !((#[trigger] mac_addrs@[t])@ =~= mac@)),
                decreases mac_addrs@.len() - k,
            {
                if mac_eq(&mac_addrs[k], &mac) {
                    is_local = true;
                    proof {
                        assert((mac_addrs@[k as int])@ =~= mac@);
                    }
                }
                k = k + 1;
            }
        }
        OnlineUser {
            address: u.address,
            login_time: u.login_time,
            flux: u.flux,
            mac_address: mac,
            has_mac,
            is_local,
        }
    }
}

} // verus!
