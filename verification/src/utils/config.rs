//! Settings of this device and where they are kept.
use vstd::prelude::*;
use vstd::string::{StrSliceExecFns, StringExecFns};
use crate::utils::text::{digit, digit_char, hex_digit_value, push_char};

verus! {

/// The settings of this device.
#[derive(Debug, Clone, PartialEq, Eq)]
pub struct AppConfig {
    pub device_id: String,
    pub device_name: String,
    pub device_type: String,
    pub chunk_size: usize,
    pub max_connections: usize,
    pub broadcast_port: u16,
    pub tcp_port: u16,
    pub save_path: String,
    pub auto_accept: bool,
}

pub open spec fn is_lower_hex_char(c: char) -> bool {
    (48 <= c as int <= 57) || (97 <= c as int <= 102)
}

/// The text of a random (version 4) UUID in hyphenated lower-case form, such as
/// `"67e55044-10b1-426f-9247-bb680e5fe0c8"`.
pub open spec fn is_uuid_v4_text(s: Seq<char>) -> bool {
    &&& s.len() == 36
    &&& forall|i: int| 0 <= i < 36 ==> (#[trigger] s[i] == '-' <==> (i == 8 || i == 13 || i == 18 || i == 23))
    &&& forall|i: int| 0 <= i < 36 && i != 8 && i != 13 && i != 18 && i != 23 ==> is_lower_hex_char(#[trigger] s[i])
    &&& s[14] == '4'
    &&& (s[19] == '8' || s[19] == '9' || s[19] == 'a' || s[19] == 'b')
}

/// A fresh random identifier: `uuid::Uuid::new_v4().to_string()`. Claimed: the text has the
/// hyphenated lower-case form of a version-4 UUID (the crate masks the version and variant
/// bits and formats through `LowerHex`); which UUID comes out is left open.
#[verifier::external_body]
pub(crate) fn new_uuid_string() -> (s: String)
    ensures
        is_uuid_v4_text(s@),
{
    uuid::Uuid::new_v4().to_string()
}

/// Hexadecimal digit `p` (0 to 15, most significant first) of `k`.
pub open spec fn nibble(k: u64, p: int) -> u64 {
    (k >> ((60 - 4 * p) as u64)) & 0xf
}

/// Character `i` of the stand-in identifier numbered `k`: the first eight and the last eight
/// hexadecimal digits of `k` around the fixed middle `-0000-4000-8000-0000`.
pub open spec fn stand_in_char(k: u64, i: int) -> char {
    if i < 8 {
        digit_char(nibble(k, i) as nat)
    } else if i >= 28 {
        digit_char(nibble(k, i - 20) as nat)
    } else if i == 8 || i == 13 || i == 18 || i == 23 {
        '-'
    } else if i == 14 {
        '4'
    } else if i == 19 {
        '8'
    } else {
        '0'
    }
}

/// The stand-in identifier numbered `k`, a text of the version-4 UUID form.
pub open spec fn stand_in_id(k: u64) -> Seq<char> {
    Seq::new(36, |i: int| stand_in_char(k, i))
}

/// Whether `s` is among the texts of `taken`.
pub open spec fn is_taken(taken: Seq<String>, s: Seq<char>) -> bool {
    exists|i: int| 0 <= i < taken.len() && #[trigger] taken[i]@ == s
}

proof fn lemma_nibbles_determine(a: u64, b: u64)
    by (bit_vector)
    requires
        (a >> 60u64) & 0xf == (b >> 60u64) & 0xf,
        (a >> 56u64) & 0xf == (b >> 56u64) & 0xf,
        (a >> 52u64) & 0xf == (b >> 52u64) & 0xf,
        (a >> 48u64) & 0xf == (b >> 48u64) & 0xf,
        (a >> 44u64) & 0xf == (b >> 44u64) & 0xf,
        (a >> 40u64) & 0xf == (b >> 40u64) & 0xf,
        (a >> 36u64) & 0xf == (b >> 36u64) & 0xf,
        (a >> 32u64) & 0xf == (b >> 32u64) & 0xf,
        (a >> 28u64) & 0xf == (b >> 28u64) & 0xf,
        (a >> 24u64) & 0xf == (b >> 24u64) & 0xf,
        (a >> 20u64) & 0xf == (b >> 20u64) & 0xf,
        (a >> 16u64) & 0xf == (b >> 16u64) & 0xf,
        (a >> 12u64) & 0xf == (b >> 12u64) & 0xf,
        (a >> 8u64) & 0xf == (b >> 8u64) & 0xf,
        (a >> 4u64) & 0xf == (b >> 4u64) & 0xf,
        (a >> 0u64) & 0xf == (b >> 0u64) & 0xf,
    ensures
        a == b,
{
}

proof fn lemma_nibble_small(k: u64, p: int)
    requires
        0 <= p < 16,
    ensures
        nibble(k, p) < 16,
{
    let sh = (60 - 4 * p) as u64;
    assert((k >> sh) & 0xf < 16) by (bit_vector);
}

/// Each stand-in identifier has the version-4 UUID form, and different numbers give
/// different identifiers.
pub proof fn lemma_stand_in_ids(a: u64, b: u64)
    ensures
        is_uuid_v4_text(stand_in_id(a)),
        stand_in_id(a) == stand_in_id(b) ==> a == b,
{
    let s = stand_in_id(a);
    assert forall|i: int| 0 <= i < 36 && i != 8 && i != 13 && i != 18 && i != 23 implies is_lower_hex_char(
        #[trigger] s[i],
    ) by {
        if i < 8 {
            lemma_nibble_small(a, i);
        } else if i >= 28 {
            lemma_nibble_small(a, i - 20);
        }
    }
    assert forall|i: int| 0 <= i < 36 implies (#[trigger] s[i] == '-' <==> (i == 8 || i == 13 || i == 18 || i == 23)) by {
        if i < 8 {
            lemma_nibble_small(a, i);
        } else if i >= 28 {
            lemma_nibble_small(a, i - 20);
        }
    }
    if stand_in_id(a) == stand_in_id(b) {
        let t = stand_in_id(b);
        assert forall|p: int| 0 <= p < 16 implies nibble(a, p) == nibble(b, p) by {
            lemma_nibble_small(a, p);
            lemma_nibble_small(b, p);
            let i = if p < 8 { p } else { p + 20 };
            assert(s[i] == t[i]);
            assert(hex_digit_value(digit_char(nibble(a, p) as nat)) == nibble(a, p));
            assert(hex_digit_value(digit_char(nibble(b, p) as nat)) == nibble(b, p));
        }
        assert(nibble(a, 0) == nibble(b, 0));
        assert(nibble(a, 1) == nibble(b, 1));
        assert(nibble(a, 2) == nibble(b, 2));
        assert(nibble(a, 3) == nibble(b, 3));
        assert(nibble(a, 4) == nibble(b, 4));
        assert(nibble(a, 5) == nibble(b, 5));
        assert(nibble(a, 6) == nibble(b, 6));
        assert(nibble(a, 7) == nibble(b, 7));
        assert(nibble(a, 8) == nibble(b, 8));
        assert(nibble(a, 9) == nibble(b, 9));
        assert(nibble(a, 10) == nibble(b, 10));
        assert(nibble(a, 11) == nibble(b, 11));
        assert(nibble(a, 12) == nibble(b, 12));
        assert(nibble(a, 13) == nibble(b, 13));
        assert(nibble(a, 14) == nibble(b, 14));
        assert(nibble(a, 15) == nibble(b, 15));
        lemma_nibbles_determine(a, b);
    }
}

fn stand_in_text(k: u64) -> (s: String)
    ensures
        s@ == stand_in_id(k),
{
    let mut s = String::new();
    let mut i: u64 = 0;
    while i < 36
        invariant
            i <= 36,
            s@ == stand_in_id(k).take(i as int),
        decreases 36 - i,
    {
        let c = if i < 8 {
            let d = (k >> (60 - 4 * i)) & 0xf;
            proof {
                lemma_nibble_small(k, i as int);
            }
            digit(d)
        } else if i >= 28 {
            let d = (k >> (60 - 4 * (i - 20))) & 0xf;
            proof {
                lemma_nibble_small(k, i - 20);
            }
            digit(d)
        } else if i == 8 || i == 13 || i == 18 || i == 23 {
            '-'
        } else if i == 14 {
            '4'
        } else if i == 19 {
            '8'
        } else {
            '0'
        };
        assert(c == stand_in_char(k, i as int));
        push_char(&mut s, c);
        assert(stand_in_id(k).take(i + 1) =~= stand_in_id(k).take(i as int).push(c));
        i = i + 1;
    }
    assert(stand_in_id(k).take(36) =~= stand_in_id(k));
    s
}

fn taken_text(taken: &Vec<String>, s: &String) -> (r: bool)
    ensures
        r == is_taken(taken@, s@),
{
    let mut i: usize = 0;
    while i < taken.len()
        invariant
            i <= taken@.len(),
            forall|k: int| 0 <= k < i ==> #[trigger] taken@[k]@ != s@,
        decreases taken@.len() - i,
    {
        if same_text(taken[i].as_str(), s.as_str()) {
            return true;
        }
        i = i + 1;
    }
    false
}

/// An identifier none of `taken` holds: a fresh random UUID, or, should that one be taken
/// already, the first stand-in identifier that is not.
pub(crate) fn fresh_uuid(taken: &Vec<String>) -> (s: String)
    ensures
        is_uuid_v4_text(s@),
        !is_taken(taken@, s@),
{
    let first = new_uuid_string();
    if !taken_text(taken, &first) {
        return first;
    }
    let m: u64 = taken.len() as u64;
    let mut k: u64 = 0;
    loop
        invariant
            m == taken@.len(),
            k <= m,
            forall|j: u64| j < k ==> is_taken(taken@, #[trigger] stand_in_id(j)),
        decreases m - k,
    {
        let c = stand_in_text(k);
        if !taken_text(taken, &c) {
            proof {
                lemma_stand_in_ids(k, k);
            }
            return c;
        }
        if k == m {
            proof {
                lemma_stand_ins_not_all_taken(taken@, m);
                let j = choose|j: u64| j <= m && !is_taken(taken@, #[trigger] stand_in_id(j));
                assert(j < k || j == k);
            }
        }
        k = k + 1;
    }
}

/// Among the `m + 1` stand-in identifiers numbered `0 ..= m`, one is not among `m` texts.
proof fn lemma_stand_ins_not_all_taken(taken: Seq<String>, m: u64)
    requires
        m == taken.len(),
    ensures
        exists|j: u64| j <= m && !is_taken(taken, #[trigger] stand_in_id(j)),
{
    if forall|j: u64| j <= m ==> is_taken(taken, #[trigger] stand_in_id(j)) {
        lemma_count_taken_stand_ins(taken, m);
    }
}

/// Were the stand-ins numbered `0 ..= m` all among the texts of `taken`, there would be more
/// than `m` of those texts.
proof fn lemma_count_taken_stand_ins(taken: Seq<String>, m: u64)
    requires
        forall|j: u64| j <= m ==> is_taken(taken, #[trigger] stand_in_id(j)),
    ensures
        taken.len() > m,
{
    let views = Seq::new(taken.len(), |i: int| taken[i]@);
    let cands = Seq::new((m + 1) as nat, |j: int| stand_in_id(j as u64));
    assert(cands.no_duplicates()) by {
        assert forall|a: int, b: int| 0 <= a < cands.len() && 0 <= b < cands.len() && a != b implies cands[a]
            != cands[b] by {
            lemma_stand_in_ids(a as u64, b as u64);
        }
    }
    cands.unique_seq_to_set();
    views.lemma_cardinality_of_set();
    assert(cands.to_set().subset_of(views.to_set())) by {
        assert forall|x: Seq<char>| cands.to_set().contains(x) implies views.to_set().contains(x) by {
            assert(cands.contains(x));
            let j = choose|j: int| 0 <= j < cands.len() && cands[j] == x;
            assert(is_taken(taken, stand_in_id(j as u64)));
            let i = choose|i: int| 0 <= i < taken.len() && #[trigger] taken[i]@ == stand_in_id(j as u64);
            assert(views[i] == x);
            assert(views.contains(x));
        }
    }
    vstd::set_lib::lemma_len_subset(cands.to_set(), views.to_set());
}

/// Whether two strings hold the same characters.
pub(crate) fn same_text(a: &str, b: &str) -> (r: bool)
    ensures
        r == (a@ == b@),
{
    let n = a.unicode_len();
    if n != b.unicode_len() {
        return false;
    }
    let mut i: usize = 0;
    while i < n
        invariant
            n == a@.len(),
            n == b@.len(),
            i <= n,
            a@.take(i as int) == b@.take(i as int),
        decreases n - i,
    {
        if a.get_char(i) != b.get_char(i) {
            assert(a@[i as int] != b@[i as int]);
            return false;
        }
        assert(a@.take(i + 1) =~= a@.take(i as int).push(a@[i as int]));
        assert(b@.take(i + 1) =~= b@.take(i as int).push(b@[i as int]));
        i = i + 1;
    }
    assert(a@ =~= a@.take(n as int));
    assert(b@ =~= b@.take(n as int));
    true
}

/// The device type reported for an operating-system name (`std::env::consts::OS`).
pub open spec fn device_type_of(os: Seq<char>) -> Seq<char> {
    if os == "windows"@ {
        "windows"@
    } else if os == "macos"@ {
        "macos"@
    } else if os == "android"@ {
        "android"@
    } else if os == "ios"@ {
        "ios"@
    } else {
        "unknown"@
    }
}

/// The device type of this build's operating system, given its name.
pub fn get_device_type(os: &str) -> (t: String)
    ensures
        t@ == device_type_of(os@),
{
    if same_text(os, "windows") {
        String::from_str("windows")
    } else if same_text(os, "macos") {
        String::from_str("macos")
    } else if same_text(os, "android") {
        String::from_str("android")
    } else if same_text(os, "ios") {
        String::from_str("ios")
    } else {
        String::from_str("unknown")
    }
}

/// What `s.split('-').next()` gives: the characters before the first `-` (all of `s` when
/// it has none).
pub open spec fn first_segment(s: Seq<char>) -> Seq<char>
    decreases s.len(),
{
    if s.len() == 0 {
        s
    } else if s[0] == '-' {
        Seq::empty()
    } else {
        seq![s[0]] + first_segment(s.drop_first())
    }
}

proof fn lemma_first_segment_prefix(s: Seq<char>, k: nat)
    requires
        k <= s.len(),
        forall|i: int| 0 <= i < k ==> s[i] != '-',
        k < s.len() ==> s[k as int] == '-',
    ensures
        first_segment(s) == s.take(k as int),
    decreases k,
{
    if k == 0 {
        if s.len() > 0 {
            assert(s[0] == '-');
        }
        assert(s.take(0) =~= Seq::<char>::empty());
    } else {
        lemma_first_segment_prefix(s.drop_first(), (k - 1) as nat);
        assert(seq![s[0]] + s.drop_first().take(k - 1) =~= s.take(k as int));
    }
}

/// The default name of a device: `LocalDrop-` and the first group of a UUID's text.
pub fn device_name_from_uuid(uuid_text: &str) -> (name: String)
    ensures
        name@ == "LocalDrop-"@ + first_segment(uuid_text@),
{
    let mut name = String::from_str("LocalDrop-");
    let n = uuid_text.unicode_len();
    let mut i: usize = 0;
    while i < n
        invariant
            n == uuid_text@.len(),
            i <= n,
            forall|j: int| 0 <= j < i ==> uuid_text@[j] != '-',
            name@ == "LocalDrop-"@ + uuid_text@.take(i as int),
        ensures
            i <= n,
            forall|j: int| 0 <= j < i ==> uuid_text@[j] != '-',
            name@ == "LocalDrop-"@ + uuid_text@.take(i as int),
            i < n ==> uuid_text@[i as int] == '-',
        decreases n - i,
    {
        let c = uuid_text.get_char(i);
        if c == '-' {
            break;
        }
        push_char(&mut name, c);
        assert(uuid_text@.take(i + 1) =~= uuid_text@.take(i as int).push(c));
        i = i + 1;
    }
    proof {
        lemma_first_segment_prefix(uuid_text@, i as nat);
    }
    assert(name@ =~= "LocalDrop-"@ + first_segment(uuid_text@));
    name
}

/// The name part that a default device name takes from a UUID: its first eight hex digits.
pub proof fn lemma_uuid_first_segment(s: Seq<char>)
    requires
        is_uuid_v4_text(s),
    ensures
        first_segment(s) == s.take(8),
        forall|i: int| 0 <= i < 8 ==> is_lower_hex_char(#[trigger] first_segment(s)[i]),
{
    assert(s[8] == '-');
    assert forall|i: int| 0 <= i < 8 implies s[i] != '-' by {
        assert(s[i] == '-' <==> (i == 8 || i == 13 || i == 18 || i == 23));
    }
    lemma_first_segment_prefix(s, 8);
}

impl AppConfig {
    /// The settings of a device seen for the first time: a fresh identifier, a name made of
    /// `LocalDrop-` and eight hex digits of another fresh UUID, 64 KiB chunks, four
    /// connections, ports 50000 (broadcast) and 50001 (TCP), no save path, no auto-accept.
    pub fn default_for_device(device_type: String) -> (c: Self)
        ensures
            is_uuid_v4_text(c.device_id@),
            exists|seg: Seq<char>| {
                &&& c.device_name@ == "LocalDrop-"@ + seg
                &&& seg.len() == 8
                &&& forall|i: int| 0 <= i < 8 ==> is_lower_hex_char(#[trigger] seg[i])
            },
            c.device_type == device_type,
            c.chunk_size == 64 * 1024,
            c.max_connections == 4,
            c.broadcast_port == 50000,
            c.tcp_port == 50001,
            c.save_path@ == Seq::<char>::empty(),
            !c.auto_accept,
    {
        let device_id = new_uuid_string();
        let name_source = new_uuid_string();
        let device_name = device_name_from_uuid(name_source.as_str());
        proof {
            lemma_uuid_first_segment(name_source@);
            let seg = first_segment(name_source@);
            assert(device_name@ == "LocalDrop-"@ + seg);
        }
        AppConfig {
            device_id,
            device_name,
            device_type,
            chunk_size: 64 * 1024,
            max_connections: 4,
            broadcast_port: 50000,
            tcp_port: 50001,
            save_path: String::new(),
            auto_accept: false,
        }
    }
}

/// `dir` joined with `config.json` as a Unix path: a `/` goes between them unless `dir` is
/// empty or already ends with one.
pub open spec fn config_path_of(dir: Seq<char>) -> Seq<char> {
    if dir.len() == 0 || dir.last() == '/' {
        dir + "config.json"@
    } else {
        dir + seq!['/'] + "config.json"@
    }
}

/// Where the settings file lives inside the data directory `config_dir`.
pub fn get_config_path(config_dir: &str) -> (p: String)
    ensures
        p@ == config_path_of(config_dir@),
{
    let mut p = String::from_str(config_dir);
    let n = config_dir.unicode_len();
    if !(n == 0 || config_dir.get_char(n - 1) == '/') {
        push_char(&mut p, '/');
    }
    p.append("config.json");
    p
}

} // verus!
