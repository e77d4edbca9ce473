use vstd::prelude::*;
use vstd::string::*;

verus! {

/// One address bound to an adapter: an IPv4 address as four octets, or
/// an address of another family (kept so that "adapter reports zero
/// bound addresses" can be decided faithfully).
#[derive(Clone, Copy, Debug, PartialEq, Eq, Structural)]
pub enum IpEntry {
    V4(u8, u8, u8, u8),
    Other,
}

/// A network adapter as the selector sees it: its description text and
/// its bound addresses in enumeration order.
#[derive(Debug, Clone)]
pub struct AdapterInfo {
    pub description: String,
    pub addresses: Vec<IpEntry>,
}

#[verifier::ext_equal]
pub struct AdapterView {
    pub description: Seq<char>,
    pub addresses: Seq<IpEntry>,
}

impl View for AdapterInfo {
    type V = AdapterView;

    open spec fn view(&self) -> AdapterView {
        AdapterView { description: self.description@, addresses: self.addresses@ }
    }
}

/// `pat` occurs contiguously somewhere in `s`.
pub open spec fn contains_sub(s: Seq<char>, pat: Seq<char>) -> bool {
    exists|i: int| 0 <= i && i + pat.len() <= s.len() && #[trigger] s.subrange(i, i + pat.len())
        == pat
}

/// Adapters whose description carries one of these markers are never
/// used for auto-detection.
pub open spec fn excluded_description(d: Seq<char>) -> bool {
    contains_sub(d, "Virtual"@) || contains_sub(d, "VPN"@) || contains_sub(d, "Hyper-V"@)
        || contains_sub(d, "Bluetooth"@)
}

/// An adapter is skipped when its description is excluded or it reports
/// no bound addresses at all.
pub open spec fn adapter_skipped(a: AdapterView) -> bool {
    excluded_description(a.description) || a.addresses.len() == 0
}

/// The address is in one of the private ranges 10.0.0.0/8,
/// 172.16.0.0/12 or 192.168.0.0/16.
pub open spec fn is_private(a: u8, b: u8) -> bool {
    a == 10 || (a == 172 && 16 <= b <= 31) || (a == 192 && b == 168)
}

/// First private IPv4 address among `addrs`, scanning from index `j`.
pub open spec fn first_private(addrs: Seq<IpEntry>, j: int) -> Option<(u8, u8, u8, u8)>
    decreases addrs.len() - j,
{
    if j < addrs.len() {
        match addrs[j] {
            IpEntry::V4(a, b, c, d) => if is_private(a, b) {
                Some((a, b, c, d))
            } else {
                first_private(addrs, j + 1)
            },
            IpEntry::Other => first_private(addrs, j + 1),
        }
    } else {
        None
    }
}

/// First private IPv4 address over the adapters from index `i` on, in
/// enumeration order, ignoring skipped adapters.
pub open spec fn spec_select(adapters: Seq<AdapterView>, i: int) -> Option<(u8, u8, u8, u8)>
    decreases adapters.len() - i,
{
    if i < adapters.len() {
        if adapter_skipped(adapters[i]) {
            spec_select(adapters, i + 1)
        } else {
            match first_private(adapters[i].addresses, 0) {
                Some(q) => Some(q),
                None => spec_select(adapters, i + 1),
            }
        }
    } else {
        None
    }
}

/// Digit character of a value below ten.
pub open spec fn digit_char(d: int) -> char {
    if d == 0 { '0' } else if d == 1 { '1' } else if d == 2 { '2' } else if d == 3 { '3' }
    else if d == 4 { '4' } else if d == 5 { '5' } else if d == 6 { '6' } else if d == 7 { '7' }
    else if d == 8 { '8' } else { '9' }
}

/// Decimal digit string of a nonnegative number.
pub open spec fn dec_str(n: int) -> Seq<char>
    decreases n,
{
    if n < 10 {
        seq![digit_char(n)]
    } else {
        dec_str(n / 10) + seq![digit_char(n % 10)]
    }
}

/// Dotted-quad text of an IPv4 address.
pub open spec fn ipv4_text(q: (u8, u8, u8, u8)) -> Seq<char> {
    dec_str(q.0 as int) + "."@ + dec_str(q.1 as int) + "."@ + dec_str(q.2 as int) + "."@
        + dec_str(q.3 as int)
}

pub(crate) fn digit_str(d: u8) -> (r: &'static str)
    requires
        d < 10,
    ensures
        r@ =~= seq![digit_char(d as int)],
{
    let r = match d {
        0 => "0",
        1 => "1",
        2 => "2",
        3 => "3",
        4 => "4",
        5 => "5",
        6 => "6",
        7 => "7",
        8 => "8",
        _ => "9",
    };
    proof {
        reveal_strlit("0");
        reveal_strlit("1");
        reveal_strlit("2");
        reveal_strlit("3");
        reveal_strlit("4");
        reveal_strlit("5");
        reveal_strlit("6");
        reveal_strlit("7");
        reveal_strlit("8");
        reveal_strlit("9");
    }
    r
}

/// Writes one octet in decimal.
fn octet_string(n: u8) -> (r: String)
    ensures
        r@ == dec_str(n as int),
{
    if n < 10 {
        digit_str(n).to_owned()
    } else if n < 100 {
        let r = digit_str(n / 10).to_owned().concat(digit_str(n % 10));
        assert(dec_str(n as int) == dec_str(n as int / 10) + seq![digit_char(n as int % 10)]);
        r
    } else {
        let hi = n / 100;
        let mid = (n / 10) % 10;
        let lo = n % 10;
        let r = digit_str(hi).to_owned().concat(digit_str(mid)).concat(digit_str(lo));
        assert(dec_str(n as int) == dec_str(n as int / 10) + seq![digit_char(n as int % 10)]);
        assert(dec_str(n as int / 10) == dec_str(n as int / 10 / 10) + seq![
            digit_char(n as int / 10 % 10),
        ]);
        assert(n as int / 10 / 10 == hi as int);
        assert(n as int / 10 % 10 == mid as int);
        r
    }
}

/// Writes an index in decimal.
pub(crate) fn usize_string(n: usize) -> (r: String)
    ensures
        r@ == dec_str(n as int),
    decreases n,
{
    if n < 10 {
        digit_str(n as u8).to_owned()
    } else {
        let r = usize_string(n / 10).concat(digit_str((n % 10) as u8));
        assert(dec_str(n as int) == dec_str(n as int / 10) + seq![digit_char(n as int % 10)]);
        r
    }
}

/// Renders an IPv4 address as dotted-quad text.
pub fn format_ipv4(a: u8, b: u8, c: u8, d: u8) -> (r: String)
    ensures
        r@ == ipv4_text((a, b, c, d)),
{
    let sb = octet_string(b);
    let sc = octet_string(c);
    let sd = octet_string(d);
    let r = octet_string(a).concat(".").concat(sb.as_str()).concat(".").concat(
        sc.as_str(),
    ).concat(".").concat(sd.as_str());
    assert(r@ =~= ipv4_text((a, b, c, d)));
    r
}

/// Looks for `pat` anywhere in `s`.
pub fn str_contains(s: &str, pat: &str) -> (r: bool)
    ensures
        r == contains_sub(s@, pat@),
{
    let n: usize = s.unicode_len();
    let m: usize = pat.unicode_len();
    if m > n {
        assert(!contains_sub(s@, pat@));
        return false;
    }
    let mut i: usize = 0;
    while i <= n - m
        invariant
            m <= n,
            n == s@.len(),
            m == pat@.len(),
            i <= n - m + 1,
            forall|k: int| 0 <= k < i ==> #[trigger] s@.subrange(k, k + m) != pat@,
        decreases n + 1 - i,
    {
        let mut j: usize = 0;
        let mut matches = true;
        while j < m
            invariant
                m <= n,
                n == s@.len(),
                m == pat@.len(),
                i + m <= n,
                j <= m,
                matches <==> forall|k: int| 0 <= k < j ==> s@[i + k] == pat@[k],
            decreases m - j,
        {
            if s.get_char(i + j) != pat.get_char(j) {
                matches = false;
                assert(s@[i + j as int] != pat@[j as int]);
                j = m;
            } else {
                j += 1;
            }
        }
        if matches {
            assert(s@.subrange(i as int, i + m) =~= pat@);
            return true;
        }
        assert(s@.subrange(i as int, i + m) != pat@) by {
            let k = choose|k: int| 0 <= k < m && s@[i + k] != pat@[k];
            assert(s@.subrange(i as int, i + m)[k] == s@[i + k]);
        }
        i += 1;
    }
    assert forall|k: int| 0 <= k && k + m <= n implies #[trigger] s@.subrange(k, k + m)
        != pat@ by {
        assert(k < i);
    }
    false
}

/// True when the description carries a virtual, VPN, hypervisor or
/// Bluetooth marker.
fn description_excluded(d: &str) -> (r: bool)
    ensures
        r == excluded_description(d@),
{
    str_contains(d, "Virtual") || str_contains(d, "VPN") || str_contains(d, "Hyper-V")
        || str_contains(d, "Bluetooth")
}

/// An explicit override is honoured exactly when it is non-empty.
pub open spec fn override_active(explicit: Option<Seq<char>>) -> bool {
    explicit is Some && explicit->0.len() > 0
}

/// The override as a character sequence, when present.
pub open spec fn override_view(explicit: Option<String>) -> Option<Seq<char>> {
    match explicit {
        Some(e) => Some(e@),
        None => None,
    }
}

/// The adapters as their mathematical models, in order.
pub open spec fn adapters_view(adapters: Seq<AdapterInfo>) -> Seq<AdapterView> {
    Seq::new(adapters.len(), |i: int| adapters[i]@)
}

/// Chooses the address to advertise: the non-empty explicit override
/// verbatim if one is given; otherwise the first private IPv4 address
/// of the first non-skipped adapter, in enumeration order.  Returns
/// `None` when neither applies and the caller must fall back to a
/// routing probe.
pub fn select_address(explicit: &Option<String>, adapters: &Vec<AdapterInfo>) -> (r: Option<
    String,
>)
    ensures
        override_active(override_view(*explicit)) ==> r is Some && r->0@ == explicit->0@,
        !override_active(override_view(*explicit)) ==> match spec_select(
            adapters_view(adapters@),
            0,
        ) {
            Some(q) => r is Some && r->0@ == ipv4_text(q),
            None => r is None,
        },
{
    if let Some(e) = explicit {
        if !e.as_str().is_empty() {
            return Some(e.clone());
        }
    }
    let ghost ads: Seq<AdapterView> = adapters_view(adapters@);
    let n: usize = adapters.len();
    let mut i: usize = 0;
    while i < n
        invariant
            n == adapters@.len(),
            ads =~= adapters_view(adapters@),
            i <= n,
            spec_select(ads, 0) == spec_select(ads, i as int),
            !override_active(override_view(*explicit)),
        decreases n - i,
    {
        let adapter = &adapters[i];
        if !description_excluded(adapter.description.as_str()) && adapter.addresses.len() > 0 {
            let m: usize = adapter.addresses.len();
            let mut j: usize = 0;
            while j < m
                invariant
                    n == adapters@.len(),
                    ads =~= adapters_view(adapters@),
                    i < n,
                    m == adapter.addresses@.len(),
                    *adapter == adapters@[i as int],
                    j <= m,
                    spec_select(ads, 0) == spec_select(ads, i as int),
                    !override_active(override_view(*explicit)),
                    !adapter_skipped(ads[i as int]),
                    first_private(ads[i as int].addresses, 0) == first_private(
                        ads[i as int].addresses,
                        j as int,
                    ),
                decreases m - j,
            {
                match adapter.addresses[j] {
                    IpEntry::V4(a, b, c, d) => {
                        let private = a == 10 || (a == 172 && 16 <= b && b <= 31) || (a == 192
                            && b == 168);
                        if private {
                            assert(first_private(ads[i as int].addresses, j as int) == Some(
                                (a, b, c, d),
                            ));
                            return Some(format_ipv4(a, b, c, d));
                        }
                    },
                    IpEntry::Other => {},
                }
                proof {
                    assert(first_private(ads[i as int].addresses, j as int) == first_private(
                        ads[i as int].addresses,
                        j + 1,
                    ));
                }
                j += 1;
            }
            assert(first_private(ads[i as int].addresses, 0) is None);
            assert(spec_select(ads, i as int) == spec_select(ads, i + 1));
        } else {
            assert(adapter_skipped(ads[i as int]));
            assert(spec_select(ads, i as int) == spec_select(ads, i + 1));
        }
        i += 1;
    }
    assert(spec_select(ads, 0) is None);
    None
}

} // verus!
