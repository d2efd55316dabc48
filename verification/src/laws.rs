//! Laws of the normalizer: which inputs are always rejected, and that the
//! canonical output is sorted, duplicate-free and independent of input
//! order.

use vstd::prelude::*;
use vstd::relations::{sorted_by, total_ordering};
use crate::model::SiteMetadataView;
use crate::normalize::{add_namespace_ok, dedup_chars, expand_ranges, extension_tags_ok,
    link_trail_class, link_trail_ok, lookup_namespace, magic_words_ok, metadata_ok,
    namespace_addition, ns_lower_aliases, redirect_aliases_of, redirect_count,
    redirect_entry_ok, stripped_tags, strip_hash, switches_of, valid_extension_tag};
use crate::order::{char_le, char_leq, lex_leq, lemma_lex_leq_total_ordering};

verus! {

/// Metadata with an extension tag that is not `<`, lowercase ASCII
/// letters, `>` is always rejected.
pub proof fn law_invalid_extension_tag_rejected(m: SiteMetadataView, i: int)
    requires
        0 <= i < m.extension_tags.len(),
        !valid_extension_tag(m.extension_tags[i]),
    ensures
        !metadata_ok(m),
{
    assert(!extension_tags_ok(m.extension_tags));
}

proof fn lemma_no_redirect_count(words: Seq<crate::model::MagicWordView>)
    requires
        forall|i: int| 0 <= i < words.len() ==> (#[trigger] words[i]).name != "redirect"@,
    ensures
        redirect_count(words) == 0,
    decreases words.len(),
{
    if words.len() > 0 {
        assert(words.drop_first() =~= words.skip(1));
        assert forall|i: int| 0 <= i < words.drop_first().len()
            implies (#[trigger] words.drop_first()[i]).name != "redirect"@ by {
            assert(words.drop_first()[i] == words[i + 1]);
        }
        lemma_no_redirect_count(words.drop_first());
    }
}

proof fn lemma_redirect_count_at_least_one(words: Seq<crate::model::MagicWordView>, i: int)
    requires
        0 <= i < words.len(),
        words[i].name == "redirect"@,
    ensures
        redirect_count(words) >= 1,
    decreases words.len(),
{
    crate::normalize::lemma_redirect_count_nonneg(words.drop_first());
    if i > 0 {
        assert(words.drop_first()[i - 1] == words[i]);
        lemma_redirect_count_at_least_one(words.drop_first(), i - 1);
    }
}

proof fn lemma_redirect_count_at_least_two(words: Seq<crate::model::MagicWordView>, i: int, j: int)
    requires
        0 <= i < j < words.len(),
        words[i].name == "redirect"@,
        words[j].name == "redirect"@,
    ensures
        redirect_count(words) >= 2,
    decreases words.len(),
{
    if i == 0 {
        assert(words.drop_first()[j - 1] == words[j]);
        lemma_redirect_count_at_least_one(words.drop_first(), j - 1);
    } else {
        assert(words.drop_first()[i - 1] == words[i]);
        assert(words.drop_first()[j - 1] == words[j]);
        lemma_redirect_count_at_least_two(words.drop_first(), i - 1, j - 1);
        crate::normalize::lemma_redirect_count_nonneg(words.drop_first());
    }
}

/// Metadata whose magic words hold no entry named `redirect` is always
/// rejected.
pub proof fn law_missing_redirect_rejected(m: SiteMetadataView)
    requires
        forall|i: int| 0 <= i < m.magic_words.len() ==> (#[trigger] m.magic_words[i]).name
            != "redirect"@,
    ensures
        !metadata_ok(m),
{
    lemma_no_redirect_count(m.magic_words);
    assert(!magic_words_ok(m.magic_words));
}

/// Metadata whose magic words hold two entries named `redirect` is always
/// rejected.
pub proof fn law_duplicate_redirect_rejected(m: SiteMetadataView, i: int, j: int)
    requires
        0 <= i < j < m.magic_words.len(),
        m.magic_words[i].name == "redirect"@,
        m.magic_words[j].name == "redirect"@,
    ensures
        !metadata_ok(m),
{
    lemma_redirect_count_at_least_two(m.magic_words, i, j);
    assert(!magic_words_ok(m.magic_words));
}

/// Metadata whose `redirect` entry has an alias without the `#` prefix is
/// always rejected.
pub proof fn law_redirect_alias_shape_rejected(m: SiteMetadataView, i: int, k: int)
    requires
        0 <= i < m.magic_words.len(),
        m.magic_words[i].name == "redirect"@,
        0 <= k < m.magic_words[i].aliases.len(),
        !(m.magic_words[i].aliases[k].len() >= 1 && m.magic_words[i].aliases[k][0] == '#'),
    ensures
        !metadata_ok(m),
{
    assert(!redirect_entry_ok(m.magic_words[i].aliases));
    assert(!magic_words_ok(m.magic_words));
}

/// Metadata whose `redirect` entry has two aliases that strip to the same
/// name is always rejected.
pub proof fn law_duplicate_redirect_alias_rejected(m: SiteMetadataView, i: int, k: int, l: int)
    requires
        0 <= i < m.magic_words.len(),
        m.magic_words[i].name == "redirect"@,
        0 <= k < m.magic_words[i].aliases.len(),
        0 <= l < m.magic_words[i].aliases.len(),
        k != l,
        strip_hash(m.magic_words[i].aliases[k]) == strip_hash(m.magic_words[i].aliases[l]),
    ensures
        !metadata_ok(m),
{
    let aliases = m.magic_words[i].aliases;
    let stripped = aliases.map_values(|a: Seq<char>| strip_hash(a));
    assert(stripped[k] == strip_hash(aliases[k]));
    assert(stripped[l] == strip_hash(aliases[l]));
    assert(!stripped.no_duplicates());
    assert(!redirect_entry_ok(aliases));
    assert(!magic_words_ok(m.magic_words));
}

/// Metadata whose link trail matches neither known template is always
/// rejected.
pub proof fn law_unrecognized_link_trail_rejected(m: SiteMetadataView)
    requires
        link_trail_class(m.link_trail) is None,
    ensures
        !metadata_ok(m),
{
    assert(!link_trail_ok(m.link_trail));
}

/// Metadata whose namespace table has no entry under the file or category
/// key is always rejected.
pub proof fn law_namespace_missing_rejected(m: SiteMetadataView, id: int, key: Seq<char>)
    requires
        (id == 6 && key == "6"@) || (id == 14 && key == "14"@),
        lookup_namespace(m.namespaces, key) is None,
    ensures
        !metadata_ok(m),
{
    assert(!add_namespace_ok(ns_lower_aliases(m.namespace_aliases, id), lookup_namespace(
        m.namespaces,
        key,
    ), id));
}

/// Metadata whose file or category namespace entry carries a different ID
/// than its table key is always rejected.
pub proof fn law_namespace_id_mismatch_rejected(m: SiteMetadataView, id: int, key: Seq<char>)
    requires
        (id == 6 && key == "6"@) || (id == 14 && key == "14"@),
        lookup_namespace(m.namespaces, key) matches Some(ns) && ns.id != id,
    ensures
        !metadata_ok(m),
{
    assert(!add_namespace_ok(ns_lower_aliases(m.namespace_aliases, id), lookup_namespace(
        m.namespaces,
        key,
    ), id));
}

/// Metadata whose file or category namespace entry lacks a canonical name
/// is always rejected.
pub proof fn law_namespace_canonical_missing_rejected(m: SiteMetadataView, id: int, key: Seq<char>)
    requires
        (id == 6 && key == "6"@) || (id == 14 && key == "14"@),
        lookup_namespace(m.namespaces, key) matches Some(ns) && ns.canonical is None,
    ensures
        !metadata_ok(m),
{
    assert(!add_namespace_ok(ns_lower_aliases(m.namespace_aliases, id), lookup_namespace(
        m.namespaces,
        key,
    ), id));
}

/// Sorting by a total order keeps a duplicate-free sequence duplicate-free.
pub proof fn lemma_sort_by_keeps_no_duplicates<A>(s: Seq<A>, leq: spec_fn(A, A) -> bool)
    requires
        total_ordering(leq),
        s.no_duplicates(),
    ensures
        s.sort_by(leq).no_duplicates(),
{
    s.lemma_sort_by_ensures(leq);
    s.lemma_multiset_has_no_duplicates();
    s.sort_by(leq).lemma_multiset_has_no_duplicates_conv();
}

proof fn lemma_char_eq_from_scalar(a: char, b: char)
    requires
        a as int == b as int,
    ensures
        a == b,
{
}

/// Collapsing runs in a sorted character sequence yields a sorted sequence
/// without duplicates and with the same characters.
pub proof fn lemma_dedup_chars_canonical(s: Seq<char>)
    requires
        sorted_by(s, char_leq()),
    ensures
        sorted_by(dedup_chars(s), char_leq()),
        dedup_chars(s).no_duplicates(),
        forall|c: char| dedup_chars(s).contains(c) <==> s.contains(c),
    decreases s.len(),
{
    if s.len() == 0 {
    } else {
        let d1 = s.drop_first();
        assert forall|p: int, q: int| 0 <= p < q < d1.len() implies #[trigger] char_leq()(
            d1[p],
            d1[q],
        ) by {
            assert(d1[p] == s[p + 1] && d1[q] == s[q + 1]);
            assert(char_leq()(s[p + 1], s[q + 1]));
        }
        lemma_dedup_chars_canonical(d1);
        if s.len() >= 2 && s[0] == s[1] {
            assert(dedup_chars(s) == dedup_chars(d1));
            assert forall|c: char| s.contains(c) implies dedup_chars(s).contains(c) by {
                let k = choose|k: int| 0 <= k < s.len() && s[k] == c;
                if k == 0 {
                    assert(d1[0] == s[1]);
                    assert(d1.contains(c));
                } else {
                    assert(d1[k - 1] == s[k]);
                    assert(d1.contains(c));
                }
            }
            assert forall|c: char| dedup_chars(s).contains(c) implies s.contains(c) by {
                assert(d1.contains(c));
                let k = choose|k: int| 0 <= k < d1.len() && d1[k] == c;
                assert(s[k + 1] == c);
            }
        } else {
            let rest = dedup_chars(d1);
            assert(dedup_chars(s) == seq![s[0]] + rest);
            let whole = dedup_chars(s);
            assert forall|c: char| whole.contains(c) implies s.contains(c) by {
                let k = choose|k: int| 0 <= k < whole.len() && whole[k] == c;
                if k == 0 {
                    assert(s[0] == c);
                } else {
                    assert(rest[k - 1] == c);
                    assert(d1.contains(c));
                    let t = choose|t: int| 0 <= t < d1.len() && d1[t] == c;
                    assert(s[t + 1] == c);
                }
            }
            assert forall|c: char| s.contains(c) implies whole.contains(c) by {
                let k = choose|k: int| 0 <= k < s.len() && s[k] == c;
                if k == 0 {
                    assert(whole[0] == c);
                } else {
                    assert(d1[k - 1] == c);
                    assert(d1.contains(c));
                    assert(rest.contains(c));
                    let t = choose|t: int| 0 <= t < rest.len() && rest[t] == c;
                    assert(whole[t + 1] == c);
                }
            }
            assert forall|p: int, q: int| 0 <= p < q < whole.len() implies #[trigger] char_leq()(
                whole[p],
                whole[q],
            ) by {
                if p == 0 {
                    assert(rest[q - 1] == whole[q]);
                    assert(d1.contains(whole[q]));
                    let t = choose|t: int| 0 <= t < d1.len() && d1[t] == whole[q];
                    assert(char_leq()(s[0], s[t + 1]));
                } else {
                    assert(char_leq()(rest[p - 1], rest[q - 1]));
                }
            }
            if rest.contains(s[0]) {
                assert(d1.contains(s[0]));
                let t = choose|t: int| 0 <= t < d1.len() && d1[t] == s[0];
                if t == 0 {
                    assert(s[1] == s[0]);
                    assert(s.len() >= 2);
                    assert(false);
                } else {
                    assert(s[t + 1] == s[0]);
                    assert(char_leq()(s[1], s[t + 1]));
                    assert(char_leq()(s[0], s[1]));
                    assert(char_le(s[1], s[t + 1]));
                    assert(char_le(s[0], s[1]));
                    assert(s[1] as int == s[0] as int);
                    lemma_char_eq_from_scalar(s[1], s[0]);
                    assert(false);
                }
            }
            assert forall|p: int, q: int|
                0 <= p < whole.len() && 0 <= q < whole.len() && p != q
                implies whole[p] != whole[q] by {
                if p == 0 {
                    if whole[q] == s[0] {
                        assert(rest[q - 1] == s[0]);
                        assert(rest.contains(s[0]));
                    }
                } else if q == 0 {
                    if whole[p] == s[0] {
                        assert(rest[p - 1] == s[0]);
                        assert(rest.contains(s[0]));
                    }
                } else {
                    assert(rest[p - 1] != rest[q - 1]);
                }
            }
        }
    }
}

proof fn lemma_redirect_aliases_no_duplicates(words: Seq<crate::model::MagicWordView>)
    requires
        forall|i: int| 0 <= i < words.len() && (#[trigger] words[i]).name == "redirect"@
            ==> redirect_entry_ok(words[i].aliases),
    ensures
        redirect_aliases_of(words).no_duplicates(),
    decreases words.len(),
{
    if words.len() == 0 {
    } else if words[0].name == "redirect"@ {
        assert(redirect_entry_ok(words[0].aliases));
    } else {
        let d1 = words.drop_first();
        assert forall|i: int| 0 <= i < d1.len() && (#[trigger] d1[i]).name == "redirect"@
            implies redirect_entry_ok(d1[i].aliases) by {
            assert(d1[i] == words[i + 1]);
        }
        lemma_redirect_aliases_no_duplicates(d1);
    }
}

proof fn lemma_namespace_concat_no_duplicates(
    prev: Seq<Seq<char>>,
    ns: crate::model::NamespaceView,
    id: int,
)
    requires
        prev.no_duplicates(),
        add_namespace_ok(prev, Some(ns), id),
    ensures
        (prev + namespace_addition(ns)).no_duplicates(),
{
    let added = namespace_addition(ns);
    let whole = prev + added;
    assert forall|p: int, q: int| 0 <= p < whole.len() && 0 <= q < whole.len() && p != q
        implies whole[p] != whole[q] by {
        let n = prev.len() as int;
        if p < n && q < n {
            assert(prev[p] != prev[q]);
        } else if p < n {
            assert(whole[q] == added[q - n]);
            if whole[p] == whole[q] {
                assert(prev.contains(added[q - n]));
            }
        } else if q < n {
            assert(whole[p] == added[p - n]);
            if whole[p] == whole[q] {
                assert(prev.contains(added[p - n]));
            }
        } else {
            assert(added.len() == 2);
            assert(added[0] != added[1]);
        }
    }
}

/// Every output list of an accepted metadata value is sorted ascending and
/// free of duplicates, and so is the link-trail character set.
pub proof fn law_outputs_sorted_and_distinct(m: SiteMetadataView)
    requires
        metadata_ok(m),
    ensures
        sorted_by(stripped_tags(m.extension_tags).sort_by(lex_leq()), lex_leq()),
        stripped_tags(m.extension_tags).sort_by(lex_leq()).no_duplicates(),
        sorted_by(switches_of(m.magic_words).sort_by(lex_leq()), lex_leq()),
        switches_of(m.magic_words).sort_by(lex_leq()).no_duplicates(),
        sorted_by(redirect_aliases_of(m.magic_words).sort_by(lex_leq()), lex_leq()),
        redirect_aliases_of(m.magic_words).sort_by(lex_leq()).no_duplicates(),
        sorted_by(m.protocols.sort_by(lex_leq()), lex_leq()),
        m.protocols.sort_by(lex_leq()).no_duplicates(),
        sorted_by(crate::normalize::final_namespaces(m, 6, "6"@), lex_leq()),
        crate::normalize::final_namespaces(m, 6, "6"@).no_duplicates(),
        sorted_by(crate::normalize::final_namespaces(m, 14, "14"@), lex_leq()),
        crate::normalize::final_namespaces(m, 14, "14"@).no_duplicates(),
        sorted_by(
            dedup_chars(expand_ranges(link_trail_class(m.link_trail).unwrap()).sort_by(char_leq())),
            char_leq(),
        ),
        dedup_chars(
            expand_ranges(link_trail_class(m.link_trail).unwrap()).sort_by(char_leq()),
        ).no_duplicates(),
{
    lemma_lex_leq_total_ordering();
    crate::order::lemma_char_leq_total_ordering();
    let tags = stripped_tags(m.extension_tags);
    tags.lemma_sort_by_ensures(lex_leq());
    lemma_sort_by_keeps_no_duplicates(tags, lex_leq());
    let switches = switches_of(m.magic_words);
    switches.lemma_sort_by_ensures(lex_leq());
    lemma_sort_by_keeps_no_duplicates(switches, lex_leq());
    let redirects = redirect_aliases_of(m.magic_words);
    lemma_redirect_aliases_no_duplicates(m.magic_words);
    redirects.lemma_sort_by_ensures(lex_leq());
    lemma_sort_by_keeps_no_duplicates(redirects, lex_leq());
    m.protocols.lemma_sort_by_ensures(lex_leq());
    lemma_sort_by_keeps_no_duplicates(m.protocols, lex_leq());
    let file_raw = ns_lower_aliases(m.namespace_aliases, 6) + namespace_addition(
        lookup_namespace(m.namespaces, "6"@).unwrap(),
    );
    lemma_namespace_concat_no_duplicates(
        ns_lower_aliases(m.namespace_aliases, 6),
        lookup_namespace(m.namespaces, "6"@).unwrap(),
        6,
    );
    file_raw.lemma_sort_by_ensures(lex_leq());
    lemma_sort_by_keeps_no_duplicates(file_raw, lex_leq());
    let category_raw = ns_lower_aliases(m.namespace_aliases, 14) + namespace_addition(
        lookup_namespace(m.namespaces, "14"@).unwrap(),
    );
    lemma_namespace_concat_no_duplicates(
        ns_lower_aliases(m.namespace_aliases, 14),
        lookup_namespace(m.namespaces, "14"@).unwrap(),
        14,
    );
    category_raw.lemma_sort_by_ensures(lex_leq());
    lemma_sort_by_keeps_no_duplicates(category_raw, lex_leq());
    let trail = expand_ranges(link_trail_class(m.link_trail).unwrap());
    trail.lemma_sort_by_ensures(char_leq());
    lemma_dedup_chars_canonical(trail.sort_by(char_leq()));
}

/// Two collected lists with the same elements, in whatever order, sort to
/// the same canonical list: the output does not depend on input order.
pub proof fn law_sorted_output_order_independent(a: Seq<Seq<char>>, b: Seq<Seq<char>>)
    requires
        a.to_multiset() == b.to_multiset(),
    ensures
        a.sort_by(lex_leq()) == b.sort_by(lex_leq()),
{
    lemma_lex_leq_total_ordering();
    a.lemma_sort_by_ensures(lex_leq());
    b.lemma_sort_by_ensures(lex_leq());
    vstd::seq_lib::lemma_sorted_unique(a.sort_by(lex_leq()), b.sort_by(lex_leq()), lex_leq());
}

/// Two accepted metadata values whose protocol lists are permutations of
/// each other yield the same protocol output.
pub proof fn law_protocols_order_independent(m1: SiteMetadataView, m2: SiteMetadataView)
    requires
        m1.protocols.to_multiset() == m2.protocols.to_multiset(),
    ensures
        m1.protocols.sort_by(lex_leq()) == m2.protocols.sort_by(lex_leq()),
{
    law_sorted_output_order_independent(m1.protocols, m2.protocols);
}

} // verus!
