//! The classifier: a fixed table of labelled network blocks, kept sorted by
//! descending prefix length, answering "which country owns this address" by
//! returning the label of the first — hence most specific — matching block.
use crate::cidr::{block_contains, spec_parse_block, CidrBlock, CidrBlockV};
use crate::ip::{parse_ip, parse_ip_str, IpAddress};
use crate::sorting::{
    insert_desc, lemma_insert_desc_sorted, lemma_insert_desc_split, sort_desc, sorted_desc,
};
use crate::text::str_eq_str;
use vstd::prelude::*;

verus! {

/// The key the table is ordered by: the prefix length of a block.
pub open spec fn block_key() -> spec_fn(CidrBlockV) -> int {
    |b: CidrBlockV| b.prefix_len as int
}

/// The fixed table of labelled blocks, in source order.
pub open spec fn table_entries() -> Seq<(Seq<char>, Seq<char>)> {
    seq![
        ("3.0.0.0/8"@, "United States"@),
        ("4.0.0.0/8"@, "United States"@),
        ("8.0.0.0/8"@, "United States"@),
        ("9.0.0.0/8"@, "United States"@),
        ("11.0.0.0/8"@, "United States"@),
        ("18.0.0.0/8"@, "United States"@),
        ("23.0.0.0/8"@, "United States"@),
        ("34.0.0.0/8"@, "United States"@),
        ("35.0.0.0/8"@, "United States"@),
        ("44.0.0.0/8"@, "United States"@),
        ("50.0.0.0/8"@, "United States"@),
        ("52.0.0.0/8"@, "United States"@),
        ("54.0.0.0/8"@, "United States"@),
        ("64.0.0.0/10"@, "United States"@),
        ("66.0.0.0/8"@, "United States"@),
        ("98.0.0.0/8"@, "United States"@),
        ("100.64.0.0/10"@, "United States"@),
        ("107.0.0.0/8"@, "United States"@),
        ("108.0.0.0/8"@, "United States"@),
        ("184.0.0.0/8"@, "United States"@),
        ("206.0.0.0/8"@, "United States"@),
        ("207.0.0.0/8"@, "United States"@),
        ("24.0.0.0/8"@, "Canada"@),
        ("51.0.0.0/8"@, "Canada"@),
        ("142.0.0.0/8"@, "Canada"@),
        ("144.0.0.0/8"@, "Canada"@),
        ("149.0.0.0/8"@, "Canada"@),
        ("158.0.0.0/8"@, "Canada"@),
        ("167.0.0.0/8"@, "Canada"@),
        ("192.99.0.0/16"@, "Canada"@),
        ("80.85.0.0/16"@, "Ireland"@),
        ("195.0.0.0/8"@, "United Kingdom"@),
        ("212.0.0.0/8"@, "United Kingdom"@),
        ("91.0.0.0/8"@, "Germany"@),
        ("94.0.0.0/8"@, "Germany"@),
        ("212.0.0.0/8"@, "France"@),
        ("213.0.0.0/8"@, "France"@),
        ("185.0.0.0/8"@, "Netherlands"@),
        ("43.0.0.0/8"@, "China"@),
        ("49.0.0.0/8"@, "China"@),
        ("101.0.0.0/8"@, "China"@),
        ("111.0.0.0/8"@, "China"@),
        ("119.0.0.0/8"@, "China"@),
        ("124.0.0.0/8"@, "China"@),
        ("129.0.0.0/8"@, "China"@),
        ("170.0.0.0/8"@, "China"@),
        ("106.0.0.0/8"@, "Japan"@),
        ("122.0.0.0/8"@, "Japan"@),
        ("182.0.0.0/8"@, "Japan"@),
        ("223.0.0.0/8"@, "Japan"@),
        ("5.0.0.0/8"@, "Russia"@),
        ("87.0.0.0/8"@, "Russia"@),
        ("95.0.0.0/8"@, "Russia"@),
        ("213.0.0.0/8"@, "Russia"@),
        ("162.0.0.0/8"@, "Australia"@),
        ("166.0.0.0/8"@, "Australia"@),
        ("189.0.0.0/8"@, "Brazil"@),
        ("190.0.0.0/8"@, "Brazil"@),
        ("41.0.0.0/8"@, "South Africa"@),
        ("102.0.0.0/8"@, "South Africa"@),
        ("105.0.0.0/8"@, "South Africa"@),
        ("154.0.0.0/8"@, "South Africa"@),
        ("197.0.0.0/8"@, "South Africa"@),
        ("47.0.0.0/8"@, "Singapore"@),
        ("2a00::/12"@, "Europe"@),
        ("2a01::/16"@, "Europe"@),
        ("2a02::/16"@, "Europe"@),
        ("2a03::/16"@, "Europe"@),
        ("2a04::/16"@, "Europe"@),
        ("2a05::/16"@, "Europe"@),
        ("2a06::/16"@, "Europe"@),
        ("2a07::/16"@, "Europe"@),
        ("2a08::/16"@, "Europe"@),
        ("2a09::/16"@, "Europe"@),
        ("2a0a::/16"@, "Europe"@),
        ("2a0b::/16"@, "Europe"@),
        ("2a0c::/16"@, "Europe"@),
        ("2a0d::/16"@, "Europe"@),
        ("2a0e::/16"@, "Europe"@),
        ("2a0f::/16"@, "Europe"@),
        ("2600::/12"@, "United States"@),
        ("2604::/16"@, "United States"@),
        ("2605::/16"@, "United States"@),
        ("2607::/16"@, "United States"@),
        ("2610::/16"@, "United States"@),
        ("2400::/12"@, "China"@),
        ("2404::/16"@, "China"@),
        ("2408::/16"@, "China"@),
        ("2409::/16"@, "China"@),
        ("10.0.0.0/8"@, "Private Network"@),
        ("172.16.0.0/12"@, "Private Network"@),
        ("192.168.0.0/16"@, "Private Network"@),
        ("127.0.0.0/8"@, "Local"@),
        ("::1/128"@, "Local"@),
        ("fc00::/7"@, "Private Network"@),
        ("fe80::/10"@, "Link Local"@),
    ]
}

/// The blocks of the entries that parse, in entry order; entries that fail
/// to parse are dropped.
pub open spec fn parse_entries(es: Seq<(Seq<char>, Seq<char>)>) -> Seq<CidrBlockV>
    decreases es.len(),
{
    if es.len() == 0 {
        Seq::<CidrBlockV>::empty()
    } else {
        parse_entries(es.drop_last()) + match spec_parse_block(es.last().0, es.last().1) {
            Some(b) => seq![b],
            None => Seq::<CidrBlockV>::empty(),
        }
    }
}

/// The classifier table: the entries that parse, stably sorted by
/// descending prefix length.
pub open spec fn spec_database() -> Seq<CidrBlockV> {
    sort_desc(parse_entries(table_entries()), block_key())
}

/// The views of a sequence of blocks.
pub open spec fn blocks_view(s: Seq<CidrBlock>) -> Seq<CidrBlockV> {
    Seq::new(s.len(), |i: int| s[i]@)
}

/// The views of a sequence of `(cidr, label)` entry pairs.
pub open spec fn entry_views(s: Seq<(String, String)>) -> Seq<(Seq<char>, Seq<char>)> {
    Seq::new(s.len(), |i: int| (s[i].0@, s[i].1@))
}

fn default_entries() -> (r: Vec<(String, String)>)
    ensures
        r@.len() == table_entries().len(),
        forall|i: int|
            0 <= i < r@.len() ==> (#[trigger] r@[i]).0@ == table_entries()[i].0 && r@[i].1@
                == table_entries()[i].1,
{
    let mut v: Vec<(String, String)> = Vec::new();
    v.push(("3.0.0.0/8".to_owned(), "United States".to_owned()));
    v.push(("4.0.0.0/8".to_owned(), "United States".to_owned()));
    v.push(("8.0.0.0/8".to_owned(), "United States".to_owned()));
    v.push(("9.0.0.0/8".to_owned(), "United States".to_owned()));
    v.push(("11.0.0.0/8".to_owned(), "United States".to_owned()));
    v.push(("18.0.0.0/8".to_owned(), "United States".to_owned()));
    v.push(("23.0.0.0/8".to_owned(), "United States".to_owned()));
    v.push(("34.0.0.0/8".to_owned(), "United States".to_owned()));
    v.push(("35.0.0.0/8".to_owned(), "United States".to_owned()));
    v.push(("44.0.0.0/8".to_owned(), "United States".to_owned()));
    v.push(("50.0.0.0/8".to_owned(), "United States".to_owned()));
    v.push(("52.0.0.0/8".to_owned(), "United States".to_owned()));
    v.push(("54.0.0.0/8".to_owned(), "United States".to_owned()));
    v.push(("64.0.0.0/10".to_owned(), "United States".to_owned()));
    v.push(("66.0.0.0/8".to_owned(), "United States".to_owned()));
    v.push(("98.0.0.0/8".to_owned(), "United States".to_owned()));
    v.push(("100.64.0.0/10".to_owned(), "United States".to_owned()));
    v.push(("107.0.0.0/8".to_owned(), "United States".to_owned()));
    v.push(("108.0.0.0/8".to_owned(), "United States".to_owned()));
    v.push(("184.0.0.0/8".to_owned(), "United States".to_owned()));
    v.push(("206.0.0.0/8".to_owned(), "United States".to_owned()));
    v.push(("207.0.0.0/8".to_owned(), "United States".to_owned()));
    v.push(("24.0.0.0/8".to_owned(), "Canada".to_owned()));
    v.push(("51.0.0.0/8".to_owned(), "Canada".to_owned()));
    v.push(("142.0.0.0/8".to_owned(), "Canada".to_owned()));
    v.push(("144.0.0.0/8".to_owned(), "Canada".to_owned()));
    v.push(("149.0.0.0/8".to_owned(), "Canada".to_owned()));
    v.push(("158.0.0.0/8".to_owned(), "Canada".to_owned()));
    v.push(("167.0.0.0/8".to_owned(), "Canada".to_owned()));
    v.push(("192.99.0.0/16".to_owned(), "Canada".to_owned()));
    v.push(("80.85.0.0/16".to_owned(), "Ireland".to_owned()));
    v.push(("195.0.0.0/8".to_owned(), "United Kingdom".to_owned()));
    v.push(("212.0.0.0/8".to_owned(), "United Kingdom".to_owned()));
    v.push(("91.0.0.0/8".to_owned(), "Germany".to_owned()));
    v.push(("94.0.0.0/8".to_owned(), "Germany".to_owned()));
    v.push(("212.0.0.0/8".to_owned(), "France".to_owned()));
    v.push(("213.0.0.0/8".to_owned(), "France".to_owned()));
    v.push(("185.0.0.0/8".to_owned(), "Netherlands".to_owned()));
    v.push(("43.0.0.0/8".to_owned(), "China".to_owned()));
    v.push(("49.0.0.0/8".to_owned(), "China".to_owned()));
    v.push(("101.0.0.0/8".to_owned(), "China".to_owned()));
    v.push(("111.0.0.0/8".to_owned(), "China".to_owned()));
    v.push(("119.0.0.0/8".to_owned(), "China".to_owned()));
    v.push(("124.0.0.0/8".to_owned(), "China".to_owned()));
    v.push(("129.0.0.0/8".to_owned(), "China".to_owned()));
    v.push(("170.0.0.0/8".to_owned(), "China".to_owned()));
    v.push(("106.0.0.0/8".to_owned(), "Japan".to_owned()));
    v.push(("122.0.0.0/8".to_owned(), "Japan".to_owned()));
    v.push(("182.0.0.0/8".to_owned(), "Japan".to_owned()));
    v.push(("223.0.0.0/8".to_owned(), "Japan".to_owned()));
    v.push(("5.0.0.0/8".to_owned(), "Russia".to_owned()));
    v.push(("87.0.0.0/8".to_owned(), "Russia".to_owned()));
    v.push(("95.0.0.0/8".to_owned(), "Russia".to_owned()));
    v.push(("213.0.0.0/8".to_owned(), "Russia".to_owned()));
    v.push(("162.0.0.0/8".to_owned(), "Australia".to_owned()));
    v.push(("166.0.0.0/8".to_owned(), "Australia".to_owned()));
    v.push(("189.0.0.0/8".to_owned(), "Brazil".to_owned()));
    v.push(("190.0.0.0/8".to_owned(), "Brazil".to_owned()));
    v.push(("41.0.0.0/8".to_owned(), "South Africa".to_owned()));
    v.push(("102.0.0.0/8".to_owned(), "South Africa".to_owned()));
    v.push(("105.0.0.0/8".to_owned(), "South Africa".to_owned()));
    v.push(("154.0.0.0/8".to_owned(), "South Africa".to_owned()));
    v.push(("197.0.0.0/8".to_owned(), "South Africa".to_owned()));
    v.push(("47.0.0.0/8".to_owned(), "Singapore".to_owned()));
    v.push(("2a00::/12".to_owned(), "Europe".to_owned()));
    v.push(("2a01::/16".to_owned(), "Europe".to_owned()));
    v.push(("2a02::/16".to_owned(), "Europe".to_owned()));
    v.push(("2a03::/16".to_owned(), "Europe".to_owned()));
    v.push(("2a04::/16".to_owned(), "Europe".to_owned()));
    v.push(("2a05::/16".to_owned(), "Europe".to_owned()));
    v.push(("2a06::/16".to_owned(), "Europe".to_owned()));
    v.push(("2a07::/16".to_owned(), "Europe".to_owned()));
    v.push(("2a08::/16".to_owned(), "Europe".to_owned()));
    v.push(("2a09::/16".to_owned(), "Europe".to_owned()));
    v.push(("2a0a::/16".to_owned(), "Europe".to_owned()));
    v.push(("2a0b::/16".to_owned(), "Europe".to_owned()));
    v.push(("2a0c::/16".to_owned(), "Europe".to_owned()));
    v.push(("2a0d::/16".to_owned(), "Europe".to_owned()));
    v.push(("2a0e::/16".to_owned(), "Europe".to_owned()));
    v.push(("2a0f::/16".to_owned(), "Europe".to_owned()));
    v.push(("2600::/12".to_owned(), "United States".to_owned()));
    v.push(("2604::/16".to_owned(), "United States".to_owned()));
    v.push(("2605::/16".to_owned(), "United States".to_owned()));
    v.push(("2607::/16".to_owned(), "United States".to_owned()));
    v.push(("2610::/16".to_owned(), "United States".to_owned()));
    v.push(("2400::/12".to_owned(), "China".to_owned()));
    v.push(("2404::/16".to_owned(), "China".to_owned()));
    v.push(("2408::/16".to_owned(), "China".to_owned()));
    v.push(("2409::/16".to_owned(), "China".to_owned()));
    v.push(("10.0.0.0/8".to_owned(), "Private Network".to_owned()));
    v.push(("172.16.0.0/12".to_owned(), "Private Network".to_owned()));
    v.push(("192.168.0.0/16".to_owned(), "Private Network".to_owned()));
    v.push(("127.0.0.0/8".to_owned(), "Local".to_owned()));
    v.push(("::1/128".to_owned(), "Local".to_owned()));
    v.push(("fc00::/7".to_owned(), "Private Network".to_owned()));
    v.push(("fe80::/10".to_owned(), "Link Local".to_owned()));
    v
}

/// Stable insertion sort of blocks by descending prefix length.
fn sort_blocks(input: Vec<CidrBlock>) -> (r: Vec<CidrBlock>)
    ensures
        blocks_view(r@) == sort_desc(blocks_view(input@), block_key()),
        sorted_desc(blocks_view(r@), block_key()),
{
    let ghost orig = input@;
    let ghost bk = block_key();
    let mut input = input;
    let mut out: Vec<CidrBlock> = Vec::new();
    proof {
        assert(input@ =~= orig.skip(0));
        assert(blocks_view(orig.take(0)) =~= Seq::<CidrBlockV>::empty());
        assert(blocks_view(out@) =~= sort_desc(blocks_view(orig.take(0)), bk));
    }
    while input.len() > 0
        invariant
            bk == block_key(),
            input@.len() <= orig.len(),
            input@ == orig.skip(orig.len() - input@.len()),
            blocks_view(out@) == sort_desc(
                blocks_view(orig.take(orig.len() - input@.len())),
                bk,
            ),
            sorted_desc(blocks_view(out@), bk),
        decreases input@.len(),
    {
        let ghost k = orig.len() - input@.len();
        let ghost old_out = blocks_view(out@);
        let b = input.remove(0);
        proof {
            assert(b == orig[k as int]);
            assert(input@ =~= orig.skip(k as int + 1));
        }
        let mut j: usize = out.len();
        while j > 0 && out[j - 1].prefix_len < b.prefix_len
            invariant
                j <= out@.len(),
                forall|m: int|
                    j <= m < out@.len() ==> (#[trigger] out@[m])@.prefix_len < b@.prefix_len,
            decreases j,
        {
            j = j - 1;
        }
        let ghost jj = j as int;
        out.insert(j, b);
        proof {
            assert forall|m: int| jj <= m < old_out.len() implies bk(#[trigger] old_out[m]) < bk(
                b@,
            ) by {
                assert(old_out[m] == out@[m + 1]@);
            }
            if jj > 0 {
                assert(bk(old_out[jj - 1]) >= bk(b@));
            }
            lemma_insert_desc_split(old_out, b@, bk, jj);
            lemma_insert_desc_sorted(old_out, b@, bk, jj);
            assert(blocks_view(out@) =~= insert_desc(old_out, b@, bk));
            let t = blocks_view(orig.take(k as int + 1));
            assert(t.drop_last() =~= blocks_view(orig.take(k as int)));
            assert(t.last() == b@);
            assert(sort_desc(t, bk) == insert_desc(old_out, b@, bk));
            assert(orig.len() - input@.len() == k + 1);
        }
    }
    proof {
        assert(orig.take(orig.len() as int) =~= orig);
    }
    out
}

/// The classifier: an immutable table of labelled blocks, built once and
/// shared read-only thereafter.
pub struct GeoIpDatabase {
    blocks: Vec<CidrBlock>,
}

impl View for GeoIpDatabase {
    type V = Seq<CidrBlockV>;

    closed spec fn view(&self) -> Seq<CidrBlockV> {
        blocks_view(self.blocks@)
    }
}

/// The index of the first block that contains `ip`, or `-1` if none does.
pub open spec fn first_match_idx(blocks: Seq<CidrBlockV>, ip: IpAddress) -> int
    decreases blocks.len(),
{
    if blocks.len() == 0 {
        -1
    } else if block_contains(blocks[0], ip) {
        0
    } else {
        let r = first_match_idx(blocks.drop_first(), ip);
        if r == -1 {
            -1
        } else {
            r + 1
        }
    }
}

pub proof fn lemma_first_match_idx(blocks: Seq<CidrBlockV>, ip: IpAddress)
    ensures
        first_match_idx(blocks, ip) == -1 ==> forall|i: int|
            0 <= i < blocks.len() ==> !block_contains(#[trigger] blocks[i], ip),
        first_match_idx(blocks, ip) != -1 ==> {
            &&& 0 <= first_match_idx(blocks, ip) < blocks.len()
            &&& block_contains(blocks[first_match_idx(blocks, ip)], ip)
            &&& forall|i: int|
                0 <= i < first_match_idx(blocks, ip) ==> !block_contains(#[trigger] blocks[i], ip)
        },
    decreases blocks.len(),
{
    if blocks.len() > 0 && !block_contains(blocks[0], ip) {
        let t = blocks.drop_first();
        lemma_first_match_idx(t, ip);
        if first_match_idx(t, ip) == -1 {
            assert forall|i: int| 0 <= i < blocks.len() implies !block_contains(
                #[trigger] blocks[i],
                ip,
            ) by {
                if i > 0 {
                    assert(t[i - 1] == blocks[i]);
                }
            }
        } else {
            let r = first_match_idx(t, ip);
            assert(blocks[r + 1] == t[r]);
            assert forall|i: int| 0 <= i < r + 1 implies !block_contains(
                #[trigger] blocks[i],
                ip,
            ) by {
                if i > 0 {
                    assert(t[i - 1] == blocks[i]);
                }
            }
        }
    }
}

/// What a lookup answers for the text `s` against the table `blocks`:
/// the three local literals short-circuit to `"Local"`; text that is no IP
/// literal answers `"Invalid IP"`; an address inside no block answers
/// `"Unknown"`; otherwise the label of the first containing block.
pub open spec fn spec_lookup(blocks: Seq<CidrBlockV>, s: Seq<char>) -> Seq<char> {
    if s == "127.0.0.1"@ || s == "localhost"@ || s == "::1"@ {
        "Local"@
    } else {
        match parse_ip(s) {
            None => "Invalid IP"@,
            Some(ip) => {
                let i = first_match_idx(blocks, ip);
                if i == -1 {
                    "Unknown"@
                } else {
                    blocks[i].country
                }
            },
        }
    }
}

impl GeoIpDatabase {
    /// Builds a classifier from `(cidr, label)` entry pairs: each entry is
    /// parsed, the malformed ones are dropped, and the result is stably
    /// sorted so that the most specific blocks come first.
    pub fn from_entries(entries: &Vec<(String, String)>) -> (r: GeoIpDatabase)
        ensures
            r@ == sort_desc(parse_entries(entry_views(entries@)), block_key()),
            sorted_desc(r@, block_key()),
    {
        let ghost ev = entry_views(entries@);
        let mut blocks: Vec<CidrBlock> = Vec::new();
        let mut i: usize = 0;
        proof {
            assert(blocks_view(blocks@) =~= parse_entries(ev.take(0)));
        }
        while i < entries.len()
            invariant
                i <= entries@.len(),
                ev == entry_views(entries@),
                blocks_view(blocks@) == parse_entries(ev.take(i as int)),
            decreases entries@.len() - i,
        {
            let ghost old_blocks = blocks_view(blocks@);
            let e = &entries[i];
            proof {
                assert(ev[i as int] == (entries@[i as int].0@, entries@[i as int].1@));
            }
            match CidrBlock::new(e.0.as_str(), e.1.as_str()) {
                Some(b) => {
                    blocks.push(b);
                    proof {
                        assert(blocks_view(blocks@) =~= old_blocks + seq![b@]);
                    }
                },
                None => {},
            }
            proof {
                let t = ev.take(i as int + 1);
                assert(t.drop_last() =~= ev.take(i as int));
                assert(t.last() == ev[i as int]);
                assert(blocks_view(blocks@) =~= parse_entries(t));
            }
            i = i + 1;
        }
        proof {
            assert(ev.take(entries@.len() as int) =~= ev);
        }
        let sorted = sort_blocks(blocks);
        GeoIpDatabase { blocks: sorted }
    }

    /// Builds the classifier from the fixed table: each entry parsed, the
    /// malformed ones dropped, and the result stably sorted so that the
    /// most specific blocks come first.
    pub fn new() -> (r: GeoIpDatabase)
        ensures
            r@ == spec_database(),
            sorted_desc(r@, block_key()),
    {
        let entries = default_entries();
        let r = GeoIpDatabase::from_entries(&entries);
        proof {
            assert(entry_views(entries@) =~= table_entries());
        }
        r
    }

    /// Answers the country label for a textual IP address, as `spec_lookup`
    /// describes.
    pub fn lookup_country(&self, ip_str: &str) -> (r: String)
        ensures
            r@ == spec_lookup(self@, ip_str@),
    {
        if str_eq_str(ip_str, "127.0.0.1") || str_eq_str(ip_str, "localhost") || str_eq_str(
            ip_str,
            "::1",
        ) {
            return "Local".to_owned();
        }
        let ip = match parse_ip_str(ip_str) {
            Some(ip) => ip,
            None => {
                return "Invalid IP".to_owned();
            },
        };
        let mut i: usize = 0;
        while i < self.blocks.len()
            invariant
                i <= self.blocks@.len(),
                parse_ip(ip_str@) == Some(ip),
                ip_str@ != "127.0.0.1"@,
                ip_str@ != "localhost"@,
                ip_str@ != "::1"@,
                forall|j: int| 0 <= j < i ==> !block_contains(#[trigger] self@[j], ip),
            decreases self.blocks@.len() - i,
        {
            if self.blocks[i].contains(ip) {
                proof {
                    lemma_first_match_idx(self@, ip);
                    if first_match_idx(self@, ip) == -1 {
                        assert(!block_contains(self@[i as int], ip));
                    }
                    let f = first_match_idx(self@, ip);
                    if f < i {
                        assert(!block_contains(self@[f], ip));
                    }
                    if f > i {
                        assert(!block_contains(self@[i as int], ip));
                    }
                    assert(f == i as int);
                }
                return self.blocks[i].country.clone();
            }
            i = i + 1;
        }
        proof {
            lemma_first_match_idx(self@, ip);
            if first_match_idx(self@, ip) != -1 {
                assert(!block_contains(self@[first_match_idx(self@, ip)], ip));
            }
        }
        "Unknown".to_owned()
    }
}

/// Classifies a textual IP address against the classifier table.
pub fn ip_to_country(db: &GeoIpDatabase, ip: &str) -> (r: String)
    ensures
        r@ == spec_lookup(db@, ip@),
{
    db.lookup_country(ip)
}

/// A valid literal outside every block of the table answers `"Unknown"`.
pub proof fn lemma_lookup_unknown(blocks: Seq<CidrBlockV>, s: Seq<char>)
    requires
        s != "127.0.0.1"@ && s != "localhost"@ && s != "::1"@,
        parse_ip(s) is Some,
        forall|j: int|
            0 <= j < blocks.len() ==> !block_contains(
                #[trigger] blocks[j],
                parse_ip(s).unwrap(),
            ),
    ensures
        spec_lookup(blocks, s) == "Unknown"@,
{
    let ip = parse_ip(s).unwrap();
    lemma_first_match_idx(blocks, ip);
    if first_match_idx(blocks, ip) != -1 {
        assert(!block_contains(blocks[first_match_idx(blocks, ip)], ip));
    }
}

/// Text that is no IP literal — apart from the three local short-circuit
/// strings — answers `"Invalid IP"`, whatever the table holds.
pub proof fn lemma_lookup_invalid(blocks: Seq<CidrBlockV>, s: Seq<char>)
    requires
        s != "127.0.0.1"@ && s != "localhost"@ && s != "::1"@,
        parse_ip(s) is None,
    ensures
        spec_lookup(blocks, s) == "Invalid IP"@,
{
}

/// Longest-prefix match: on a table sorted by descending prefix length,
/// when at least one block contains the queried address, the answer is the
/// label of a matching block whose prefix length no other matching block
/// exceeds.
pub proof fn lemma_lookup_longest_prefix(blocks: Seq<CidrBlockV>, s: Seq<char>)
    requires
        sorted_desc(blocks, block_key()),
        s != "127.0.0.1"@ && s != "localhost"@ && s != "::1"@,
        parse_ip(s) is Some,
        exists|j: int|
            0 <= j < blocks.len() && block_contains(#[trigger] blocks[j], parse_ip(s).unwrap()),
    ensures
        ({
            let ip = parse_ip(s).unwrap();
            let i = first_match_idx(blocks, ip);
            &&& 0 <= i < blocks.len()
            &&& block_contains(blocks[i], ip)
            &&& spec_lookup(blocks, s) == blocks[i].country
            &&& forall|j: int|
                0 <= j < blocks.len() && block_contains(#[trigger] blocks[j], ip)
                    ==> blocks[j].prefix_len <= blocks[i].prefix_len
        }),
{
    let ip = parse_ip(s).unwrap();
    lemma_first_match_idx(blocks, ip);
    let w = choose|j: int| 0 <= j < blocks.len() && block_contains(#[trigger] blocks[j], ip);
    let i = first_match_idx(blocks, ip);
    if i == -1 {
        assert(!block_contains(blocks[w], ip));
    }
    let bk = block_key();
    assert forall|j: int|
        0 <= j < blocks.len() && block_contains(#[trigger] blocks[j], ip) implies blocks[
        j
    ].prefix_len <= blocks[i].prefix_len by {
        if j < i {
            assert(!block_contains(blocks[j], ip));
        }
        assert(bk(blocks[i]) >= bk(blocks[j]));
        assert(bk(blocks[i]) == blocks[i].prefix_len as int);
        assert(bk(blocks[j]) == blocks[j].prefix_len as int);
    }
}

} // verus!
