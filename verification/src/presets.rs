//! Built-in port presets — curated lists of the most relevant TCP ports for
//! quick scans.
//!
//! These are hand-curated to match the spirit of nmap's frequency-ranked
//! top-N lists, but they're independent: nmap's exact ordering changes from
//! release to release, while these stay stable across versions.
use vstd::prelude::*;
use vstd::string::StrSliceExecFns;

use crate::error::{Failure, ParseError};
use crate::services::ascii_lower;
use crate::cover::all_ports;
use crate::spec::{PortSpec, pair_holds, pairs_cover, spec_result};
use vstd::seq_lib::lemma_flatten_concat;
use vstd::set_lib::{lemma_int_range, lemma_len_subset, set_int_range};
use crate::laws::{joined, lemma_flatten_lows, lemma_groups_parse, lemma_spec_of_list, group_spells, pairs_text, pairs_wf};
use crate::text::{chars_of, dec, string_from_chars};

verus! {

/// The compact canonical text form of the top-100 list.
///
/// Exposed for callers who want to embed or echo the spec without paying
/// the parse cost; everyone else should use [`top_100_tcp`].
pub const TOP_100_TCP_LIST: &'static str = "7,9,13,21-23,25-26,37,53,79-81,88,106,110-111,113,119,135,139,143-144,179,199,389,427,443-445,465,513-515,543-544,548,554,587,631,646,873,990,993,995,1025-1029,1110,1433,1720,1723,1755,1900,2000-2001,2049,2121,2717,3000,3128,3306,3389,3986,4899,5000-5001,5009,5051,5060,5101,5190,5357,5432,5631,5666,5800,5900,6000-6001,6646,7070,8000,8008-8009,8080-8081,8443,8888,9100,9999-10000,32768,49152-49157";

/// The compact canonical text form of the top-1000 list.
///
/// Composed by appending common less-frequent ports to the top-100 base —
/// retains the same `tcp/...` flavour without bringing in IANA bulk.
pub const TOP_1000_TCP_LIST: &'static str = "7,9,13,21-23,25-26,37,53,79-81,88,106,110-111,113,119,135,139,143-144,179,199,389,427,443-445,465,513-515,543-544,548,554,587,631,646,873,990,993,995,1025-1029,1110,1433,1720,1723,1755,1900,2000-2001,2049,2121,2717,3000,3128,3306,3389,3986,4899,5000-5001,5009,5051,5060,5101,5190,5357,5432,5631,5666,5800,5900,6000-6001,6646,7070,8000,8008-8009,8080-8081,8443,8888,9100,9999-10000,32768,49152-49157,1-6,8,10-12,14-20,24,27-36,38-52,54-78,82-87,89-105,107-109,112,114-118,120-134,136-138,140-142,145-178,180-198,200-388,390-426,428-442,446-464,466-512,516-542,545-547,549-553,555-586,588-630,632-645,647-872,874-989,991-992,994,996-1024,1030-1109,1111-1432,1434-1719,1721-1722,1724-1754,1756-1899,1901-1999,2002-2048,2050-2120,2122-2716,2718-2999,3001-3127,3129-3305,3307-3388,3390-3985,3987-4898,4900-4999,5002-5008,5010-5050,5052-5059,5061-5100,5102-5189,5191-5356,5358-5431,5433-5630,5632-5665,5667-5799,5801-5899,5901-5999,6002-6645,6647-7069,7071-7999,8001-8007,8010-8079,8082-8442,8444-8887,8889-9099,9101-9998,10001-10999";

/// The ports a preset list names: those of its ranges when it parses (the
/// built-in lists do), none otherwise.
pub open spec fn preset_ports(list: Seq<char>) -> Set<int> {
    match spec_result(list) {
        Ok(ps) => pairs_cover(ps),
        Err(_) => Set::empty(),
    }
}

/// The ranges of the top-100 list, in list order, in groups of ten.
pub open spec fn top_100_groups() -> Seq<Seq<(u16, u16)>> {
    seq![
        seq![
            (7u16, 7u16), (9, 9), (13, 13), (21, 23), (25, 26), (37, 37), (53, 53),
            (79, 81), (88, 88), (106, 106),
        ],
        seq![
            (110u16, 111u16), (113, 113), (119, 119), (135, 135), (139, 139), (143, 144),
            (179, 179), (199, 199), (389, 389), (427, 427),
        ],
        seq![
            (443u16, 445u16), (465, 465), (513, 515), (543, 544), (548, 548), (554, 554),
            (587, 587), (631, 631), (646, 646), (873, 873),
        ],
        seq![
            (990u16, 990u16), (993, 993), (995, 995), (1025, 1029), (1110, 1110),
            (1433, 1433), (1720, 1720), (1723, 1723), (1755, 1755), (1900, 1900),
        ],
        seq![
            (2000u16, 2001u16), (2049, 2049), (2121, 2121), (2717, 2717), (3000, 3000),
            (3128, 3128), (3306, 3306), (3389, 3389), (3986, 3986), (4899, 4899),
        ],
        seq![
            (5000u16, 5001u16), (5009, 5009), (5051, 5051), (5060, 5060), (5101, 5101),
            (5190, 5190), (5357, 5357), (5432, 5432), (5631, 5631), (5666, 5666),
        ],
        seq![
            (5800u16, 5800u16), (5900, 5900), (6000, 6001), (6646, 6646), (7070, 7070),
            (8000, 8000), (8008, 8009), (8080, 8081), (8443, 8443), (8888, 8888),
        ],
        seq![(9100u16, 9100u16), (9999, 10000), (32768, 32768), (49152, 49157)],
    ]
}

/// The ranges that the top-1000 list names after those of the top-100 list,
/// in list order, in groups of ten.
pub open spec fn top_1000_added_groups() -> Seq<Seq<(u16, u16)>> {
    seq![
        seq![
            (1u16, 6u16), (8, 8), (10, 12), (14, 20), (24, 24), (27, 36), (38, 52),
            (54, 78), (82, 87), (89, 105),
        ],
        seq![
            (107u16, 109u16), (112, 112), (114, 118), (120, 134), (136, 138), (140, 142),
            (145, 178), (180, 198), (200, 388), (390, 426),
        ],
        seq![
            (428u16, 442u16), (446, 464), (466, 512), (516, 542), (545, 547), (549, 553),
            (555, 586), (588, 630), (632, 645), (647, 872),
        ],
        seq![
            (874u16, 989u16), (991, 992), (994, 994), (996, 1024), (1030, 1109),
            (1111, 1432), (1434, 1719), (1721, 1722), (1724, 1754), (1756, 1899),
        ],
        seq![
            (1901u16, 1999u16), (2002, 2048), (2050, 2120), (2122, 2716), (2718, 2999),
            (3001, 3127), (3129, 3305), (3307, 3388), (3390, 3985), (3987, 4898),
        ],
        seq![
            (4900u16, 4999u16), (5002, 5008), (5010, 5050), (5052, 5059), (5061, 5100),
            (5102, 5189), (5191, 5356), (5358, 5431), (5433, 5630), (5632, 5665),
        ],
        seq![
            (5667u16, 5799u16), (5801, 5899), (5901, 5999), (6002, 6645), (6647, 7069),
            (7071, 7999), (8001, 8007), (8010, 8079), (8082, 8442), (8444, 8887),
        ],
        seq![(8889u16, 9099u16), (9101, 9998), (10001, 10999)],
    ]
}

/// The ranges of the top-1000 list, in list order, in groups.
pub open spec fn top_1000_groups() -> Seq<Seq<(u16, u16)>> {
    top_100_groups() + top_1000_added_groups()
}

/// The top-100 list as written, in groups of ten items.
pub open spec fn top_100_texts() -> Seq<Seq<char>> {
    seq![
        "7,9,13,21-23,25-26,37,53,79-81,88,106"@,
        "110-111,113,119,135,139,143-144,179,199,389,427"@,
        "443-445,465,513-515,543-544,548,554,587,631,646,873"@,
        "990,993,995,1025-1029,1110,1433,1720,1723,1755,1900"@,
        "2000-2001,2049,2121,2717,3000,3128,3306,3389,3986,4899"@,
        "5000-5001,5009,5051,5060,5101,5190,5357,5432,5631,5666"@,
        "5800,5900,6000-6001,6646,7070,8000,8008-8009,8080-8081,8443,8888"@,
        "9100,9999-10000,32768,49152-49157"@,
    ]
}

/// The items that the top-1000 list adds after those of the top-100 list, as
/// written, in groups of ten.
pub open spec fn top_1000_added_texts() -> Seq<Seq<char>> {
    seq![
        "1-6,8,10-12,14-20,24,27-36,38-52,54-78,82-87,89-105"@,
        "107-109,112,114-118,120-134,136-138,140-142,145-178,180-198,200-388,390-426"@,
        "428-442,446-464,466-512,516-542,545-547,549-553,555-586,588-630,632-645,647-872"@,
        "874-989,991-992,994,996-1024,1030-1109,1111-1432,1434-1719,1721-1722,1724-1754,1756-1899"@,
        "1901-1999,2002-2048,2050-2120,2122-2716,2718-2999,3001-3127,3129-3305,3307-3388,3390-3985,3987-4898"@,
        "4900-4999,5002-5008,5010-5050,5052-5059,5061-5100,5102-5189,5191-5356,5358-5431,5433-5630,5632-5665"@,
        "5667-5799,5801-5899,5901-5999,6002-6645,6647-7069,7071-7999,8001-8007,8010-8079,8082-8442,8444-8887"@,
        "8889-9099,9101-9998,10001-10999"@,
    ]
}

/// Each group of the top-100 list is the text of its ranges.
#[verifier::rlimit(40)]
proof fn lemma_top_100_group_0()
    ensures
        group_spells(top_100_texts()[0], top_100_groups()[0]),
{
    reveal_strlit("7,9,13,21-23,25-26,37,53,79-81,88,106");
    reveal_with_fuel(pairs_text, 11);
    reveal_with_fuel(dec, 6);
    assert(top_100_texts()[0] =~= pairs_text(top_100_groups()[0]));
}

#[verifier::rlimit(40)]
proof fn lemma_top_100_group_1()
    ensures
        group_spells(top_100_texts()[1], top_100_groups()[1]),
{
    reveal_strlit("110-111,113,119,135,139,143-144,179,199,389,427");
    reveal_with_fuel(pairs_text, 11);
    reveal_with_fuel(dec, 6);
    assert(top_100_texts()[1] =~= pairs_text(top_100_groups()[1]));
}

#[verifier::rlimit(40)]
proof fn lemma_top_100_group_2()
    ensures
        group_spells(top_100_texts()[2], top_100_groups()[2]),
{
    reveal_strlit("443-445,465,513-515,543-544,548,554,587,631,646,873");
    reveal_with_fuel(pairs_text, 11);
    reveal_with_fuel(dec, 6);
    assert(top_100_texts()[2] =~= pairs_text(top_100_groups()[2]));
}

#[verifier::rlimit(40)]
proof fn lemma_top_100_group_3()
    ensures
        group_spells(top_100_texts()[3], top_100_groups()[3]),
{
    reveal_strlit("990,993,995,1025-1029,1110,1433,1720,1723,1755,1900");
    reveal_with_fuel(pairs_text, 11);
    reveal_with_fuel(dec, 6);
    assert(top_100_texts()[3] =~= pairs_text(top_100_groups()[3]));
}

#[verifier::rlimit(40)]
proof fn lemma_top_100_group_4()
    ensures
        group_spells(top_100_texts()[4], top_100_groups()[4]),
{
    reveal_strlit("2000-2001,2049,2121,2717,3000,3128,3306,3389,3986,4899");
    reveal_with_fuel(pairs_text, 11);
    reveal_with_fuel(dec, 6);
    assert(top_100_texts()[4] =~= pairs_text(top_100_groups()[4]));
}

#[verifier::rlimit(40)]
proof fn lemma_top_100_group_5()
    ensures
        group_spells(top_100_texts()[5], top_100_groups()[5]),
{
    reveal_strlit("5000-5001,5009,5051,5060,5101,5190,5357,5432,5631,5666");
    reveal_with_fuel(pairs_text, 11);
    reveal_with_fuel(dec, 6);
    assert(top_100_texts()[5] =~= pairs_text(top_100_groups()[5]));
}

#[verifier::rlimit(40)]
proof fn lemma_top_100_group_6()
    ensures
        group_spells(top_100_texts()[6], top_100_groups()[6]),
{
    reveal_strlit("5800,5900,6000-6001,6646,7070,8000,8008-8009,8080-8081,8443,8888");
    reveal_with_fuel(pairs_text, 11);
    reveal_with_fuel(dec, 6);
    assert(top_100_texts()[6] =~= pairs_text(top_100_groups()[6]));
}

#[verifier::rlimit(40)]
proof fn lemma_top_100_group_7()
    ensures
        group_spells(top_100_texts()[7], top_100_groups()[7]),
{
    reveal_strlit("9100,9999-10000,32768,49152-49157");
    reveal_with_fuel(pairs_text, 11);
    reveal_with_fuel(dec, 6);
    assert(top_100_texts()[7] =~= pairs_text(top_100_groups()[7]));
}

/// Each added group of the top-1000 list is the text of its ranges.
#[verifier::rlimit(40)]
proof fn lemma_top_1000_added_group_0()
    ensures
        group_spells(top_1000_added_texts()[0], top_1000_added_groups()[0]),
{
    reveal_strlit("1-6,8,10-12,14-20,24,27-36,38-52,54-78,82-87,89-105");
    reveal_with_fuel(pairs_text, 11);
    reveal_with_fuel(dec, 6);
    assert(top_1000_added_texts()[0] =~= pairs_text(top_1000_added_groups()[0]));
}

#[verifier::rlimit(40)]
proof fn lemma_top_1000_added_group_1()
    ensures
        group_spells(top_1000_added_texts()[1], top_1000_added_groups()[1]),
{
    reveal_strlit("107-109,112,114-118,120-134,136-138,140-142,145-178,180-198,200-388,390-426");
    reveal_with_fuel(pairs_text, 11);
    reveal_with_fuel(dec, 6);
    assert(top_1000_added_texts()[1] =~= pairs_text(top_1000_added_groups()[1]));
}

#[verifier::rlimit(40)]
proof fn lemma_top_1000_added_group_2()
    ensures
        group_spells(top_1000_added_texts()[2], top_1000_added_groups()[2]),
{
    reveal_strlit("428-442,446-464,466-512,516-542,545-547,549-553,555-586,588-630,632-645,647-872");
    reveal_with_fuel(pairs_text, 11);
    reveal_with_fuel(dec, 6);
    assert(top_1000_added_texts()[2] =~= pairs_text(top_1000_added_groups()[2]));
}

#[verifier::rlimit(40)]
proof fn lemma_top_1000_added_group_3()
    ensures
        group_spells(top_1000_added_texts()[3], top_1000_added_groups()[3]),
{
    reveal_strlit("874-989,991-992,994,996-1024,1030-1109,1111-1432,1434-1719,1721-1722,1724-1754,1756-1899");
    reveal_with_fuel(pairs_text, 11);
    reveal_with_fuel(dec, 6);
    assert(top_1000_added_texts()[3] =~= pairs_text(top_1000_added_groups()[3]));
}

#[verifier::rlimit(40)]
proof fn lemma_top_1000_added_group_4()
    ensures
        group_spells(top_1000_added_texts()[4], top_1000_added_groups()[4]),
{
    reveal_strlit("1901-1999,2002-2048,2050-2120,2122-2716,2718-2999,3001-3127,3129-3305,3307-3388,3390-3985,3987-4898");
    reveal_with_fuel(pairs_text, 11);
    reveal_with_fuel(dec, 6);
    assert(top_1000_added_texts()[4] =~= pairs_text(top_1000_added_groups()[4]));
}

#[verifier::rlimit(40)]
proof fn lemma_top_1000_added_group_5()
    ensures
        group_spells(top_1000_added_texts()[5], top_1000_added_groups()[5]),
{
    reveal_strlit("4900-4999,5002-5008,5010-5050,5052-5059,5061-5100,5102-5189,5191-5356,5358-5431,5433-5630,5632-5665");
    reveal_with_fuel(pairs_text, 11);
    reveal_with_fuel(dec, 6);
    assert(top_1000_added_texts()[5] =~= pairs_text(top_1000_added_groups()[5]));
}

#[verifier::rlimit(40)]
proof fn lemma_top_1000_added_group_6()
    ensures
        group_spells(top_1000_added_texts()[6], top_1000_added_groups()[6]),
{
    reveal_strlit("5667-5799,5801-5899,5901-5999,6002-6645,6647-7069,7071-7999,8001-8007,8010-8079,8082-8442,8444-8887");
    reveal_with_fuel(pairs_text, 11);
    reveal_with_fuel(dec, 6);
    assert(top_1000_added_texts()[6] =~= pairs_text(top_1000_added_groups()[6]));
}

#[verifier::rlimit(40)]
proof fn lemma_top_1000_added_group_7()
    ensures
        group_spells(top_1000_added_texts()[7], top_1000_added_groups()[7]),
{
    reveal_strlit("8889-9099,9101-9998,10001-10999");
    reveal_with_fuel(pairs_text, 11);
    reveal_with_fuel(dec, 6);
    assert(top_1000_added_texts()[7] =~= pairs_text(top_1000_added_groups()[7]));
}

/// The top-100 list is its groups joined by commas.
proof fn lemma_top_100_joined()
    ensures
        TOP_100_TCP_LIST@ == joined(top_100_texts()),
        TOP_100_TCP_LIST@[0] == '7',
        TOP_100_TCP_LIST@.last() == '7',
{
    reveal_strlit("7,9,13,21-23,25-26,37,53,79-81,88,106,110-111,113,119,135,139,143-144,179,199,389,427,443-445,465,513-515,543-544,548,554,587,631,646,873,990,993,995,1025-1029,1110,1433,1720,1723,1755,1900,2000-2001,2049,2121,2717,3000,3128,3306,3389,3986,4899,5000-5001,5009,5051,5060,5101,5190,5357,5432,5631,5666,5800,5900,6000-6001,6646,7070,8000,8008-8009,8080-8081,8443,8888,9100,9999-10000,32768,49152-49157");
    reveal_strlit("7,9,13,21-23,25-26,37,53,79-81,88,106");
    reveal_strlit("110-111,113,119,135,139,143-144,179,199,389,427");
    reveal_strlit("443-445,465,513-515,543-544,548,554,587,631,646,873");
    reveal_strlit("990,993,995,1025-1029,1110,1433,1720,1723,1755,1900");
    reveal_strlit("2000-2001,2049,2121,2717,3000,3128,3306,3389,3986,4899");
    reveal_strlit("5000-5001,5009,5051,5060,5101,5190,5357,5432,5631,5666");
    reveal_strlit("5800,5900,6000-6001,6646,7070,8000,8008-8009,8080-8081,8443,8888");
    reveal_strlit("9100,9999-10000,32768,49152-49157");
    reveal_with_fuel(joined, 9);
    assert(TOP_100_TCP_LIST@ =~= joined(top_100_texts()));
}

/// The top-1000 list is the groups of the top-100 list and then its added
/// groups, joined by commas.
proof fn lemma_top_1000_joined()
    ensures
        TOP_1000_TCP_LIST@ == joined(top_100_texts() + top_1000_added_texts()),
        TOP_1000_TCP_LIST@[0] == '7',
        TOP_1000_TCP_LIST@.last() == '9',
{
    reveal_strlit("7,9,13,21-23,25-26,37,53,79-81,88,106,110-111,113,119,135,139,143-144,179,199,389,427,443-445,465,513-515,543-544,548,554,587,631,646,873,990,993,995,1025-1029,1110,1433,1720,1723,1755,1900,2000-2001,2049,2121,2717,3000,3128,3306,3389,3986,4899,5000-5001,5009,5051,5060,5101,5190,5357,5432,5631,5666,5800,5900,6000-6001,6646,7070,8000,8008-8009,8080-8081,8443,8888,9100,9999-10000,32768,49152-49157,1-6,8,10-12,14-20,24,27-36,38-52,54-78,82-87,89-105,107-109,112,114-118,120-134,136-138,140-142,145-178,180-198,200-388,390-426,428-442,446-464,466-512,516-542,545-547,549-553,555-586,588-630,632-645,647-872,874-989,991-992,994,996-1024,1030-1109,1111-1432,1434-1719,1721-1722,1724-1754,1756-1899,1901-1999,2002-2048,2050-2120,2122-2716,2718-2999,3001-3127,3129-3305,3307-3388,3390-3985,3987-4898,4900-4999,5002-5008,5010-5050,5052-5059,5061-5100,5102-5189,5191-5356,5358-5431,5433-5630,5632-5665,5667-5799,5801-5899,5901-5999,6002-6645,6647-7069,7071-7999,8001-8007,8010-8079,8082-8442,8444-8887,8889-9099,9101-9998,10001-10999");
    reveal_strlit("7,9,13,21-23,25-26,37,53,79-81,88,106");
    reveal_strlit("110-111,113,119,135,139,143-144,179,199,389,427");
    reveal_strlit("443-445,465,513-515,543-544,548,554,587,631,646,873");
    reveal_strlit("990,993,995,1025-1029,1110,1433,1720,1723,1755,1900");
    reveal_strlit("2000-2001,2049,2121,2717,3000,3128,3306,3389,3986,4899");
    reveal_strlit("5000-5001,5009,5051,5060,5101,5190,5357,5432,5631,5666");
    reveal_strlit("5800,5900,6000-6001,6646,7070,8000,8008-8009,8080-8081,8443,8888");
    reveal_strlit("9100,9999-10000,32768,49152-49157");
    reveal_strlit("1-6,8,10-12,14-20,24,27-36,38-52,54-78,82-87,89-105");
    reveal_strlit("107-109,112,114-118,120-134,136-138,140-142,145-178,180-198,200-388,390-426");
    reveal_strlit("428-442,446-464,466-512,516-542,545-547,549-553,555-586,588-630,632-645,647-872");
    reveal_strlit("874-989,991-992,994,996-1024,1030-1109,1111-1432,1434-1719,1721-1722,1724-1754,1756-1899");
    reveal_strlit("1901-1999,2002-2048,2050-2120,2122-2716,2718-2999,3001-3127,3129-3305,3307-3388,3390-3985,3987-4898");
    reveal_strlit("4900-4999,5002-5008,5010-5050,5052-5059,5061-5100,5102-5189,5191-5356,5358-5431,5433-5630,5632-5665");
    reveal_strlit("5667-5799,5801-5899,5901-5999,6002-6645,6647-7069,7071-7999,8001-8007,8010-8079,8082-8442,8444-8887");
    reveal_strlit("8889-9099,9101-9998,10001-10999");
    reveal_with_fuel(joined, 17);
    assert(TOP_1000_TCP_LIST@ =~= joined(top_100_texts() + top_1000_added_texts()));
}

/// Every group of the top-100 list is the text of its ranges.
proof fn lemma_top_100_spelled()
    ensures
        top_100_texts().len() == top_100_groups().len() == 8,
        forall|k: int| 0 <= k < 8 ==> #[trigger] group_spells(top_100_texts()[k], top_100_groups()[k]),
{
    assert forall|k: int| 0 <= k < 8 implies #[trigger] group_spells(top_100_texts()[k], top_100_groups()[k]) by {
        if k == 0 {
            lemma_top_100_group_0();
        } else if k == 1 {
            lemma_top_100_group_1();
        } else if k == 2 {
            lemma_top_100_group_2();
        } else if k == 3 {
            lemma_top_100_group_3();
        } else if k == 4 {
            lemma_top_100_group_4();
        } else if k == 5 {
            lemma_top_100_group_5();
        } else if k == 6 {
            lemma_top_100_group_6();
        } else if k == 7 {
            lemma_top_100_group_7();
        }
    }
}

/// Every added group of the top-1000 list is the text of its ranges.
proof fn lemma_top_1000_added_spelled()
    ensures
        top_1000_added_texts().len() == top_1000_added_groups().len() == 8,
        forall|k: int| 0 <= k < 8 ==> #[trigger] group_spells(top_1000_added_texts()[k], top_1000_added_groups()[k]),
{
    assert forall|k: int| 0 <= k < 8 implies #[trigger] group_spells(top_1000_added_texts()[k], top_1000_added_groups()[k]) by {
        if k == 0 {
            lemma_top_1000_added_group_0();
        } else if k == 1 {
            lemma_top_1000_added_group_1();
        } else if k == 2 {
            lemma_top_1000_added_group_2();
        } else if k == 3 {
            lemma_top_1000_added_group_3();
        } else if k == 4 {
            lemma_top_1000_added_group_4();
        } else if k == 5 {
            lemma_top_1000_added_group_5();
        } else if k == 6 {
            lemma_top_1000_added_group_6();
        } else if k == 7 {
            lemma_top_1000_added_group_7();
        }
    }
}

/// The top-100 list parses to its ranges.
proof fn lemma_top_100_parses()
    ensures
        spec_result(TOP_100_TCP_LIST@) == Ok::<Seq<(u16, u16)>, Failure>(top_100_groups().flatten()),
{
    lemma_top_100_joined();
    lemma_top_100_spelled();
    let gs = top_100_groups();
    lemma_groups_parse(top_100_texts(), gs);
    assert(gs.flatten() == gs[0] + gs.drop_first().flatten());
    lemma_spec_of_list(TOP_100_TCP_LIST@, gs.flatten());
}

/// The top-1000 list parses to its ranges.
proof fn lemma_top_1000_parses()
    ensures
        spec_result(TOP_1000_TCP_LIST@) == Ok::<Seq<(u16, u16)>, Failure>(top_1000_groups().flatten()),
{
    lemma_top_1000_joined();
    lemma_top_100_spelled();
    lemma_top_1000_added_spelled();
    let ts = top_100_texts() + top_1000_added_texts();
    let gs = top_1000_groups();
    assert forall|k: int| 0 <= k < gs.len() implies #[trigger] group_spells(ts[k], gs[k]) by {
        if k < 8 {
            assert(group_spells(top_100_texts()[k], top_100_groups()[k]));
        } else {
            assert(group_spells(top_1000_added_texts()[k - 8], top_1000_added_groups()[k - 8]));
        }
    }
    lemma_groups_parse(ts, gs);
    assert(gs.flatten() == gs[0] + gs.drop_first().flatten());
    assert(gs[0] == top_100_groups()[0]);
    lemma_top_100_group_0();
    lemma_spec_of_list(TOP_1000_TCP_LIST@, gs.flatten());
}

/// The top-1000 preset is a strict superset of the top-100 one: both lists
/// parse, every port of the top-100 preset is in the top-1000 preset, and
/// the top-1000 preset has more ports (port 1 among them).
pub proof fn law_top_1000_extends_top_100()
    ensures
        spec_result(TOP_100_TCP_LIST@) is Ok,
        spec_result(TOP_1000_TCP_LIST@) is Ok,
        preset_ports(TOP_100_TCP_LIST@).subset_of(preset_ports(TOP_1000_TCP_LIST@)),
        preset_ports(TOP_1000_TCP_LIST@).contains(1),
        !preset_ports(TOP_100_TCP_LIST@).contains(1),
        preset_ports(TOP_100_TCP_LIST@).finite(),
        preset_ports(TOP_1000_TCP_LIST@).finite(),
        preset_ports(TOP_100_TCP_LIST@).len() < preset_ports(TOP_1000_TCP_LIST@).len(),
{
    lemma_top_100_parses();
    lemma_top_1000_parses();
    let small = top_100_groups().flatten();
    let added = top_1000_added_groups().flatten();
    lemma_flatten_concat(top_100_groups(), top_1000_added_groups());
    let big = top_1000_groups().flatten();
    assert(big == small + added);
    let a = pairs_cover(small);
    let b = pairs_cover(big);
    assert forall|p: int| a.contains(p) implies b.contains(p) by {
        let i = choose|i: int| 0 <= i < small.len() && #[trigger] pair_holds(small[i], p);
        assert(big[i] == small[i]);
    }
    let ag = top_1000_added_groups();
    assert(added == ag[0] + ag.drop_first().flatten());
    assert(big[small.len() as int] == added[0]);
    assert(pair_holds(big[small.len() as int], 1));
    assert(b.contains(1));
    lemma_flatten_lows(top_100_groups(), 7);
    assert(!a.contains(1)) by {
        if a.contains(1) {
            let i = choose|i: int| 0 <= i < small.len() && #[trigger] pair_holds(small[i], 1);
            assert(7 <= small[i].0);
        }
    }
    assert(b.subset_of(all_ports()));
    lemma_int_range(0, 65536);
    assert(all_ports() =~= set_int_range(0, 65536));
    lemma_len_subset(b, all_ports());
    lemma_len_subset(a, b.remove(1));
}

/// Compact "top-100 TCP" preset — the ports most commonly worth a quick
/// `connect()` sweep on a fresh subnet. Returned as a normalized
/// [`PortSpec`].
///
/// Build cost is a single parse over the canonical list; cache the result if
/// you call it repeatedly.
pub fn top_100_tcp() -> (r: PortSpec)
    ensures
        spec_result(TOP_100_TCP_LIST@) is Ok,
        r@ == preset_ports(TOP_100_TCP_LIST@),
{
    proof {
        lemma_top_100_parses();
    }
    match PortSpec::parse(TOP_100_TCP_LIST) {
        Ok(spec) => spec,
        Err(_) => PortSpec::new(),
    }
}

/// Expanded "top-1000 TCP" preset, a strict superset of [`top_100_tcp`].
pub fn top_1000_tcp() -> (r: PortSpec)
    ensures
        spec_result(TOP_1000_TCP_LIST@) is Ok,
        r@ == preset_ports(TOP_1000_TCP_LIST@),
{
    proof {
        lemma_top_1000_parses();
    }
    match PortSpec::parse(TOP_1000_TCP_LIST) {
        Ok(spec) => spec,
        Err(_) => PortSpec::new(),
    }
}

/// `name` spells `word` when ASCII case is ignored.
pub open spec fn names(name: Seq<char>, word: Seq<char>) -> bool {
    &&& name.len() == word.len()
    &&& forall|i: int| 0 <= i < name.len() ==> ascii_lower(#[trigger] name[i]) == word[i] as int
}

/// Which preset a name selects: `top-100` or `top100` for the top-100 list,
/// `top-1000` or `top1000` for the top-1000 list, in any ASCII case.
pub open spec fn preset_choice(name: Seq<char>) -> Option<bool> {
    if names(name, "top-100"@) || names(name, "top100"@) {
        Some(false)
    } else if names(name, "top-1000"@) || names(name, "top1000"@) {
        Some(true)
    } else {
        None
    }
}

fn names_exec(name: &[char], word: &str) -> (r: bool)
    ensures
        r == names(name@, word@),
{
    let n = word.unicode_len();
    if name.len() != n {
        return false;
    }
    let mut i: usize = 0;
    while i < n
        invariant
            i <= n,
            n == name@.len(),
            n == word@.len(),
            forall|j: int| 0 <= j < i ==> ascii_lower(#[trigger] name@[j]) == word@[j] as int,
        decreases n - i,
    {
        let c = name[i];
        let u = c as u32;
        let l = if 65 <= u && u <= 90 { u + 32 } else { u };
        if l != word.get_char(i) as u32 {
            return false;
        }
        i = i + 1;
    }
    true
}

/// Look up a preset by name: `top-100` or `top-1000`, ignoring ASCII case
/// and the dash.
///
/// # Errors
///
/// Returns [`ParseError::Malformed`] quoting `name` for any other name.
pub fn preset(name: &str) -> (r: Result<PortSpec, ParseError>)
    ensures
        r is Ok <==> preset_choice(name@) is Some,
        r matches Ok(s) ==> s@ == (if preset_choice(name@) == Some(false) {
            preset_ports(TOP_100_TCP_LIST@)
        } else {
            preset_ports(TOP_1000_TCP_LIST@)
        }),
        r matches Err(e) ==> e@ == Failure::Malformed(name@),
{
    let cs = chars_of(name);
    if names_exec(cs.as_slice(), "top-100") || names_exec(cs.as_slice(), "top100") {
        Ok(top_100_tcp())
    } else if names_exec(cs.as_slice(), "top-1000") || names_exec(cs.as_slice(), "top1000") {
        Ok(top_1000_tcp())
    } else {
        Err(ParseError::Malformed(string_from_chars(cs.as_slice())))
    }
}

} // verus!
