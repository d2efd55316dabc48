//! The validation-and-normalization pipeline: each raw metadata field is
//! checked against the MediaWiki conventions and turned into its canonical
//! form; any violation yields the matching error and no output.

use vstd::prelude::*;
use crate::model::{ConfigError, MagicWord, Namespace, NamespaceAlias, NamespaceEntry,
    NamespaceAliasView, NamespaceEntryView, NamespaceView, MagicWordView, NormalizedConfiguration,
    SiteMetadata};
use crate::order::{char_leq, lex_leq, contains_str, lemma_lex_le_antisymmetric,
    lemma_lex_leq_total_ordering, sort_chars, sort_strings, str_eq};
use crate::textops::{has_prefix, has_suffix, lower_of, lowercase, spec_has_prefix,
    spec_has_suffix, substring_owned};

verus! {

/// An ASCII lowercase letter.
pub open spec fn is_ascii_lower(c: char) -> bool {
    ('a' as int) <= c as int && c as int <= ('z' as int)
}

/// A raw extension tag: `<` and `>` around one or more ASCII lowercase
/// letters (the empty interior is tolerated).
pub open spec fn valid_extension_tag(t: Seq<char>) -> bool {
    &&& t.len() >= 2
    &&& t[0] == '<'
    &&& t[t.len() - 1] == '>'
    &&& forall|i: int| 1 <= i < t.len() - 1 ==> is_ascii_lower(#[trigger] t[i])
}

/// The tag with its angle-bracket delimiters removed.
pub open spec fn strip_tag(t: Seq<char>) -> Seq<char>
    recommends
        t.len() >= 2,
{
    t.subrange(1, t.len() - 1)
}

/// All tags stripped of their delimiters, in input order.
pub open spec fn stripped_tags(tags: Seq<Seq<char>>) -> Seq<Seq<char>> {
    tags.map_values(|t: Seq<char>| strip_tag(t))
}

/// The extension tag gate: every tag well-formed, no stripped duplicates.
pub open spec fn extension_tags_ok(tags: Seq<Seq<char>>) -> bool {
    &&& forall|i: int| 0 <= i < tags.len() ==> valid_extension_tag(#[trigger] tags[i])
    &&& stripped_tags(tags).no_duplicates()
}

/// Whether one raw tag is well-formed.
fn check_extension_tag(tag: &str) -> (r: bool)
    ensures
        r == valid_extension_tag(tag@),
{
    let n = tag.unicode_len();
    if n < 2 {
        return false;
    }
    if tag.get_char(0) != '<' {
        return false;
    }
    if tag.get_char(n - 1) != '>' {
        return false;
    }
    let mut i: usize = 1;
    while i < n - 1
        invariant
            1 <= i <= n - 1,
            n == tag@.len(),
            2 <= n,
            tag@[0] == '<',
            tag@[n - 1] == '>',
            forall|j: int| 1 <= j < i ==> is_ascii_lower(#[trigger] tag@[j]),
        decreases n - 1 - i,
    {
        let c = tag.get_char(i);
        if c < 'a' || c > 'z' {
            return false;
        }
        i = i + 1;
    }
    true
}

/// Validates the raw extension tags and strips their delimiters.
///
/// Succeeds exactly when every tag is `<`, ASCII lowercase letters, `>`,
/// and no two tags strip to the same name; the output keeps input order.
pub fn normalize_extension_tags(tags: &Vec<String>) -> (r: Result<Vec<String>, ConfigError>)
    ensures
        (r matches Ok(out)) <==> extension_tags_ok(tags.deep_view()),
        r matches Ok(out) ==> out.deep_view() == stripped_tags(tags.deep_view()),
        r == Err::<Vec<String>, ConfigError>(ConfigError::ExtensionTagNotRecognized) ==> exists|i: int|
            0 <= i < tags.deep_view().len() && !valid_extension_tag(#[trigger] tags.deep_view()[i]),
        r == Err::<Vec<String>, ConfigError>(ConfigError::DuplicateExtensionTag)
            ==> !stripped_tags(tags.deep_view()).no_duplicates(),
        r matches Err(e) ==> (e == ConfigError::ExtensionTagNotRecognized
            || e == ConfigError::DuplicateExtensionTag),
{
    let ghost d = tags.deep_view();
    let mut out: Vec<String> = Vec::new();
    proof {
        assert(out.deep_view() =~= stripped_tags(d.take(0)));
    }
    let mut i: usize = 0;
    while i < tags.len()
        invariant
            i <= tags.len(),
            d == tags.deep_view(),
            d.len() == tags.len(),
            forall|j: int| 0 <= j < i ==> valid_extension_tag(#[trigger] d[j]),
            out.deep_view() == stripped_tags(d.take(i as int)),
            out.deep_view().no_duplicates(),
        decreases tags.len() - i,
    {
        let tag = &tags[i];
        proof {
            assert(tag@ == d[i as int]);
        }
        if !check_extension_tag(tag.as_str()) {
            return Err(ConfigError::ExtensionTagNotRecognized);
        }
        let n = tag.unicode_len();
        let stripped = substring_owned(tag.as_str(), 1, n - 1);
        proof {
            assert(stripped@ == strip_tag(d[i as int]));
        }
        if contains_str(&out, stripped.as_str()) {
            proof {
                let st = stripped_tags(d);
                let k = choose|k: int| 0 <= k < out.deep_view().len()
                    && out.deep_view()[k] == stripped@;
                assert(out.deep_view()[k] == stripped_tags(d.take(i as int))[k]);
                assert(st[k] == strip_tag(d[k]));
                assert(st[i as int] == strip_tag(d[i as int]));
                assert(st[k] == st[i as int]);
                assert(!st.no_duplicates());
            }
            return Err(ConfigError::DuplicateExtensionTag);
        }
        let ghost old_deep = out.deep_view();
        out.push(stripped);
        proof {
            assert(out.deep_view() =~= old_deep.push(stripped@));
            assert(stripped_tags(d.take(i as int + 1)) =~= old_deep.push(stripped@));
            let nd = out.deep_view();
            assert forall|p: int, q: int| 0 <= p < nd.len() && 0 <= q < nd.len() && p != q
                implies nd[p] != nd[q] by {
                if p < old_deep.len() && q < old_deep.len() {
                    assert(old_deep[p] != old_deep[q]);
                } else if p < old_deep.len() {
                    assert(nd[q] == stripped@ && nd[p] == old_deep[p]);
                } else {
                    assert(nd[p] == stripped@ && nd[q] == old_deep[q]);
                }
            }
        }
        i = i + 1;
    }
    proof {
        assert(d.take(d.len() as int) =~= d);
    }
    Ok(out)
}

/// The bracketed character class of the raw link trail, when the string
/// matches one of the two known templates.
pub open spec fn link_trail_class(s: Seq<char>) -> Option<Seq<char>> {
    if s.len() >= 15 && spec_has_prefix(s, "/^(["@) && spec_has_suffix(s, "]+)(.*)$/sD"@) {
        Some(s.subrange(4, s.len() - 11))
    } else if s.len() >= 16 && spec_has_prefix(s, "/^(["@) && spec_has_suffix(s, "]+)(.*)$/sDu"@) {
        Some(s.subrange(4, s.len() - 12))
    } else {
        None
    }
}

/// The 52 ASCII letters that the shorthand range `a-z` stands for.
pub open spec fn ascii_letters() -> Seq<char> {
    "ABCDEFGHIJKLMNOPQRSTUVWXYZabcdefghijklmnopqrstuvwxyz"@
}

/// The character class with every occurrence of the shorthand `a-z`
/// replaced by the enumerated ASCII letters, left to right.
pub open spec fn expand_ranges(s: Seq<char>) -> Seq<char>
    decreases s.len(),
{
    if s.len() == 0 {
        Seq::empty()
    } else if s.len() >= 3 && s[0] == 'a' && s[1] == '-' && s[2] == 'z' {
        ascii_letters() + expand_ranges(s.skip(3))
    } else {
        seq![s[0]] + expand_ranges(s.skip(1))
    }
}

/// The link trail gate: the raw string matches a known template and the
/// expanded class keeps no literal hyphen.
pub open spec fn link_trail_ok(s: Seq<char>) -> bool {
    match link_trail_class(s) {
        Some(cls) => !expand_ranges(cls).contains('-'),
        None => false,
    }
}

/// Expands the shorthand range `a-z` inside a character class.
fn expand_class(cls: &str) -> (r: String)
    ensures
        r@ == expand_ranges(cls@),
{
    let n = cls.unicode_len();
    let mut out = String::new();
    proof {
        assert(cls@.skip(0) =~= cls@);
        assert(out@ + expand_ranges(cls@) =~= expand_ranges(cls@));
    }
    let mut i: usize = 0;
    while i < n
        invariant
            i <= n,
            n == cls@.len(),
            out@ + expand_ranges(cls@.skip(i as int)) == expand_ranges(cls@),
        decreases n - i,
    {
        let ghost pre = out@;
        let ghost rest = cls@.skip(i as int);
        proof {
            assert(rest[0] == cls@[i as int]);
            if i + 2 < n {
                assert(rest[1] == cls@[i as int + 1]);
                assert(rest[2] == cls@[i as int + 2]);
            }
        }
        if n - i >= 3 && cls.get_char(i) == 'a' && cls.get_char(i + 1) == '-'
            && cls.get_char(i + 2) == 'z' {
            out.append("ABCDEFGHIJKLMNOPQRSTUVWXYZabcdefghijklmnopqrstuvwxyz");
            proof {
                assert(expand_ranges(rest) == ascii_letters() + expand_ranges(rest.skip(3)));
                assert(rest.skip(3) =~= cls@.skip(i as int + 3));
                assert(out@ + expand_ranges(cls@.skip(i as int + 3)) =~= pre + expand_ranges(
                    rest,
                ));
            }
            i = i + 3;
        } else {
            let c = cls.get_char(i);
            out.push(c);
            proof {
                assert(expand_ranges(rest) == seq![rest[0]] + expand_ranges(rest.skip(1)));
                assert(rest.skip(1) =~= cls@.skip(i as int + 1));
                assert(out@ + expand_ranges(cls@.skip(i as int + 1)) =~= pre + expand_ranges(
                    rest,
                ));
            }
            i = i + 1;
        }
    }
    proof {
        assert(cls@.skip(n as int) =~= Seq::<char>::empty());
        assert(out@ + Seq::<char>::empty() =~= out@);
    }
    out
}

/// Whether a string holds the given character.
fn contains_char(s: &str, c: char) -> (r: bool)
    ensures
        r == s@.contains(c),
{
    let n = s.unicode_len();
    let mut i: usize = 0;
    while i < n
        invariant
            i <= n,
            n == s@.len(),
            forall|j: int| 0 <= j < i ==> s@[j] != c,
        decreases n - i,
    {
        if s.get_char(i) == c {
            return true;
        }
        i = i + 1;
    }
    false
}

/// Extracts and expands the link-trail character class.
///
/// Succeeds exactly when the raw string matches one of the two known
/// regular-expression templates and the expansion of its bracketed class
/// leaves no literal hyphen behind.
pub fn parse_link_trail(link_trail: &str) -> (r: Result<String, ConfigError>)
    ensures
        (r matches Ok(out)) <==> link_trail_ok(link_trail@),
        r matches Ok(out) ==> link_trail_class(link_trail@) matches Some(cls)
            && out@ == expand_ranges(cls),
        r matches Err(e) ==> e == ConfigError::LinkTrailNotRecognized,
{
    let n = link_trail.unicode_len();
    let cls: &str = if n >= 15 && has_prefix(link_trail, "/^([")
        && has_suffix(link_trail, "]+)(.*)$/sD") {
        link_trail.substring_char(4, n - 11)
    } else if n >= 16 && has_prefix(link_trail, "/^([")
        && has_suffix(link_trail, "]+)(.*)$/sDu") {
        link_trail.substring_char(4, n - 12)
    } else {
        return Err(ConfigError::LinkTrailNotRecognized);
    };
    proof {
        assert(link_trail_class(link_trail@) == Some(cls@));
    }
    let expanded = expand_class(cls);
    if contains_char(expanded.as_str(), '-') {
        return Err(ConfigError::LinkTrailNotRecognized);
    }
    Ok(expanded)
}

/// A behavior-switch alias: interior text wrapped in double underscores.
pub open spec fn is_wrapped(a: Seq<char>) -> bool {
    a.len() >= 4 && spec_has_prefix(a, "__"@) && spec_has_suffix(a, "__"@)
}

/// The alias with its double-underscore wrapping removed.
pub open spec fn strip_wrap(a: Seq<char>) -> Seq<char>
    recommends
        a.len() >= 4,
{
    a.subrange(2, a.len() - 2)
}

/// The alias with its leading `#` removed.
pub open spec fn strip_hash(a: Seq<char>) -> Seq<char>
    recommends
        a.len() >= 1,
{
    a.subrange(1, a.len() as int)
}

/// The behavior-switch names carried by one magic word's aliases: the
/// wrapped aliases, stripped, in order.
pub open spec fn wrapped_of(aliases: Seq<Seq<char>>) -> Seq<Seq<char>>
    decreases aliases.len(),
{
    if aliases.len() == 0 {
        Seq::empty()
    } else if is_wrapped(aliases[0]) {
        seq![strip_wrap(aliases[0])] + wrapped_of(aliases.drop_first())
    } else {
        wrapped_of(aliases.drop_first())
    }
}

/// All behavior-switch names of the metadata: the wrapped aliases of every
/// magic word but `redirect`, stripped, in order.
pub open spec fn switches_of(words: Seq<MagicWordView>) -> Seq<Seq<char>>
    decreases words.len(),
{
    if words.len() == 0 {
        Seq::empty()
    } else if words[0].name == "redirect"@ {
        switches_of(words.drop_first())
    } else {
        wrapped_of(words[0].aliases) + switches_of(words.drop_first())
    }
}

/// How many magic words are named `redirect`.
pub open spec fn redirect_count(words: Seq<MagicWordView>) -> int
    decreases words.len(),
{
    if words.len() == 0 {
        0
    } else if words[0].name == "redirect"@ {
        1 + redirect_count(words.drop_first())
    } else {
        redirect_count(words.drop_first())
    }
}

pub proof fn lemma_redirect_count_nonneg(words: Seq<MagicWordView>)
    ensures
        redirect_count(words) >= 0,
    decreases words.len(),
{
    if words.len() > 0 {
        lemma_redirect_count_nonneg(words.drop_first());
    }
}

/// The aliases of the first magic word named `redirect`, with their `#`
/// prefixes removed.
pub open spec fn redirect_aliases_of(words: Seq<MagicWordView>) -> Seq<Seq<char>>
    decreases words.len(),
{
    if words.len() == 0 {
        Seq::empty()
    } else if words[0].name == "redirect"@ {
        words[0].aliases.map_values(|a: Seq<char>| strip_hash(a))
    } else {
        redirect_aliases_of(words.drop_first())
    }
}

/// Whether the `redirect` entry's aliases are acceptable: each starts
/// with `#`, and no two strip to the same name.
pub open spec fn redirect_entry_ok(aliases: Seq<Seq<char>>) -> bool {
    &&& forall|k: int| 0 <= k < aliases.len()
        ==> (#[trigger] aliases[k]).len() >= 1 && aliases[k][0] == '#'
    &&& aliases.map_values(|a: Seq<char>| strip_hash(a)).no_duplicates()
}

/// Whether one non-`redirect` magic word's aliases are acceptable: every
/// wrapped alias keeps a nonempty name after stripping.
pub open spec fn switch_aliases_wf(aliases: Seq<Seq<char>>) -> bool {
    forall|k: int| 0 <= k < aliases.len() && is_wrapped(#[trigger] aliases[k])
        ==> strip_wrap(aliases[k]).len() >= 1
}

/// The magic word gate: exactly one `redirect` entry, its aliases
/// well-formed, every behavior switch nonempty, and no switch repeated.
pub open spec fn magic_words_ok(words: Seq<MagicWordView>) -> bool {
    &&& redirect_count(words) == 1
    &&& forall|i: int| 0 <= i < words.len() && (#[trigger] words[i]).name == "redirect"@
        ==> redirect_entry_ok(words[i].aliases)
    &&& forall|i: int| 0 <= i < words.len() && (#[trigger] words[i]).name != "redirect"@
        ==> switch_aliases_wf(words[i].aliases)
    &&& switches_of(words).no_duplicates()
}

/// Collects the `redirect` entry's aliases, stripped of their `#` prefixes.
fn collect_redirect_aliases(aliases: &Vec<String>) -> (r: Result<Vec<String>, ConfigError>)
    ensures
        (r matches Ok(out)) <==> redirect_entry_ok(aliases.deep_view()),
        r matches Ok(out) ==> out.deep_view() == aliases.deep_view().map_values(
            |a: Seq<char>| strip_hash(a),
        ),
        r matches Err(e) ==> (e == ConfigError::RedirectAliasNotRecognized
            || e == ConfigError::DuplicateRedirectAlias),
{
    let ghost d = aliases.deep_view();
    let ghost stripped_all = d.map_values(|a: Seq<char>| strip_hash(a));
    let mut out: Vec<String> = Vec::new();
    proof {
        assert(out.deep_view() =~= stripped_all.take(0));
    }
    let mut k: usize = 0;
    while k < aliases.len()
        invariant
            k <= aliases.len(),
            d == aliases.deep_view(),
            stripped_all == d.map_values(|a: Seq<char>| strip_hash(a)),
            d.len() == aliases.len(),
            forall|j: int| 0 <= j < k ==> (#[trigger] d[j]).len() >= 1 && d[j][0] == '#',
            out.deep_view() == stripped_all.take(k as int),
            out.deep_view().no_duplicates(),
        decreases aliases.len() - k,
    {
        let alias = &aliases[k];
        proof {
            assert(alias@ == d[k as int]);
        }
        let n = alias.unicode_len();
        if n < 1 || alias.get_char(0) != '#' {
            return Err(ConfigError::RedirectAliasNotRecognized);
        }
        let stripped = substring_owned(alias.as_str(), 1, n);
        proof {
            assert(stripped@ == strip_hash(d[k as int]));
            assert(stripped_all[k as int] == strip_hash(d[k as int]));
        }
        if contains_str(&out, stripped.as_str()) {
            proof {
                let j = choose|j: int| 0 <= j < out.deep_view().len()
                    && out.deep_view()[j] == stripped@;
                assert(stripped_all[j] == stripped_all[k as int]);
                assert(!stripped_all.no_duplicates());
            }
            return Err(ConfigError::DuplicateRedirectAlias);
        }
        let ghost old_deep = out.deep_view();
        out.push(stripped);
        proof {
            assert(out.deep_view() =~= old_deep.push(stripped@));
            assert(stripped_all.take(k as int + 1) =~= old_deep.push(stripped@));
            let nd = out.deep_view();
            assert forall|p: int, q: int| 0 <= p < nd.len() && 0 <= q < nd.len() && p != q
                implies nd[p] != nd[q] by {
                if p < old_deep.len() && q < old_deep.len() {
                    assert(old_deep[p] != old_deep[q]);
                } else if p < old_deep.len() {
                    assert(nd[q] == stripped@ && nd[p] == old_deep[p]);
                } else {
                    assert(nd[p] == stripped@ && nd[q] == old_deep[q]);
                }
            }
        }
        k = k + 1;
    }
    proof {
        assert(stripped_all.take(d.len() as int) =~= stripped_all);
    }
    Ok(out)
}

/// Whether an alias is wrapped in double underscores.
fn check_wrapped(alias: &str) -> (r: bool)
    ensures
        r == is_wrapped(alias@),
{
    let n = alias.unicode_len();
    if n < 4 {
        return false;
    }
    has_prefix(alias, "__") && has_suffix(alias, "__")
}

/// Appends one magic word's behavior-switch aliases, stripped, to the
/// collected list, rejecting empty names and duplicates.
fn collect_switch_aliases(switches: &mut Vec<String>, aliases: &Vec<String>) -> (r: Result<
    (),
    ConfigError,
>)
    requires
        old(switches).deep_view().no_duplicates(),
    ensures
        (r matches Ok(u)) <==> (switch_aliases_wf(aliases.deep_view()) && (old(
            switches,
        ).deep_view() + wrapped_of(aliases.deep_view())).no_duplicates()),
        r matches Ok(u) ==> final(switches).deep_view() == old(switches).deep_view() + wrapped_of(
            aliases.deep_view(),
        ) && final(switches).deep_view().no_duplicates(),
        r matches Err(e) ==> (e == ConfigError::MagicWordAliasNotRecognized
            || e == ConfigError::DuplicateMagicWord),
        r == Err::<(), ConfigError>(ConfigError::MagicWordAliasNotRecognized)
            ==> !switch_aliases_wf(aliases.deep_view()),
        r == Err::<(), ConfigError>(ConfigError::DuplicateMagicWord) ==> !(old(
            switches,
        ).deep_view() + wrapped_of(aliases.deep_view())).no_duplicates(),
{
    let ghost d = aliases.deep_view();
    let ghost base = old(switches).deep_view();
    let ghost target = base + wrapped_of(d);
    proof {
        assert(d.skip(0) =~= d);
        assert(base + wrapped_of(d.skip(0)) =~= target);
    }
    let mut k: usize = 0;
    while k < aliases.len()
        invariant
            k <= aliases.len(),
            d == aliases.deep_view(),
            d.len() == aliases.len(),
            base == old(switches).deep_view(),
            target == base + wrapped_of(d),
            switches.deep_view() + wrapped_of(d.skip(k as int)) == target,
            switches.deep_view().no_duplicates(),
            forall|j: int| 0 <= j < k && is_wrapped(#[trigger] d[j]) ==> strip_wrap(d[j]).len()
                >= 1,
        decreases aliases.len() - k,
    {
        let alias = &aliases[k];
        proof {
            assert(alias@ == d[k as int]);
            assert(d.skip(k as int)[0] == d[k as int]);
            assert(d.skip(k as int).drop_first() =~= d.skip(k as int + 1));
        }
        if check_wrapped(alias.as_str()) {
            let n = alias.unicode_len();
            if n == 4 {
                proof {
                    assert(strip_wrap(d[k as int]).len() == 0);
                }
                return Err(ConfigError::MagicWordAliasNotRecognized);
            }
            let stripped = substring_owned(alias.as_str(), 2, n - 2);
            proof {
                assert(stripped@ == strip_wrap(d[k as int]));
                assert(wrapped_of(d.skip(k as int)) == seq![strip_wrap(d[k as int])]
                    + wrapped_of(d.skip(k as int + 1)));
            }
            if contains_str(switches, stripped.as_str()) {
                proof {
                    let sd = switches.deep_view();
                    let j = choose|j: int| 0 <= j < sd.len() && sd[j] == stripped@;
                    assert(target[j] == sd[j]);
                    assert(target[sd.len() as int] == wrapped_of(d.skip(k as int))[0]);
                    assert(target[sd.len() as int] == stripped@);
                    assert(!target.no_duplicates());
                }
                return Err(ConfigError::DuplicateMagicWord);
            }
            let ghost old_deep = switches.deep_view();
            switches.push(stripped);
            proof {
                assert(switches.deep_view() =~= old_deep.push(stripped@));
                assert(switches.deep_view() + wrapped_of(d.skip(k as int + 1)) =~= old_deep
                    + wrapped_of(d.skip(k as int)));
                let nd = switches.deep_view();
                assert forall|p: int, q: int| 0 <= p < nd.len() && 0 <= q < nd.len() && p != q
                    implies nd[p] != nd[q] by {
                    if p < old_deep.len() && q < old_deep.len() {
                        assert(old_deep[p] != old_deep[q]);
                    } else if p < old_deep.len() {
                        assert(nd[q] == stripped@ && nd[p] == old_deep[p]);
                    } else {
                        assert(nd[p] == stripped@ && nd[q] == old_deep[q]);
                    }
                }
            }
        } else {
            proof {
                assert(wrapped_of(d.skip(k as int)) == wrapped_of(d.skip(k as int + 1)));
            }
        }
        k = k + 1;
    }
    proof {
        assert(d.skip(d.len() as int) =~= Seq::<Seq<char>>::empty());
        assert(switches.deep_view() + Seq::<Seq<char>>::empty() =~= switches.deep_view());
    }
    Ok(())
}

/// Walks the magic words and collects the behavior-switch names and the
/// `redirect` aliases.
///
/// Succeeds exactly when there is one entry named `redirect`, its aliases
/// all carry a `#` prefix and strip to distinct names, and the wrapped
/// aliases of the remaining entries strip to nonempty, pairwise distinct
/// names.
pub fn collect_magic_words(words: &Vec<MagicWord>) -> (r: Result<
    (Vec<String>, Vec<String>),
    ConfigError,
>)
    ensures
        (r matches Ok(p)) <==> magic_words_ok(words.deep_view()),
        r matches Ok(p) ==> p.0.deep_view() == switches_of(words.deep_view())
            && p.1.deep_view() == redirect_aliases_of(words.deep_view()),
        r == Err::<(Vec<String>, Vec<String>), ConfigError>(ConfigError::DuplicateRedirectMagicWord)
            ==> redirect_count(words.deep_view()) >= 2,
        r == Err::<(Vec<String>, Vec<String>), ConfigError>(ConfigError::RedirectMagicWordMissing)
            ==> redirect_count(words.deep_view()) == 0,
        r matches Err(e) ==> (e == ConfigError::DuplicateRedirectMagicWord
            || e == ConfigError::RedirectAliasNotRecognized
            || e == ConfigError::DuplicateRedirectAlias
            || e == ConfigError::MagicWordAliasNotRecognized
            || e == ConfigError::DuplicateMagicWord
            || e == ConfigError::RedirectMagicWordMissing),
{
    let ghost d = words.deep_view();
    let mut switches: Vec<String> = Vec::new();
    let mut redirect: Option<Vec<String>> = None;
    proof {
        assert(d.skip(0) =~= d);
        assert(switches.deep_view() =~= Seq::<Seq<char>>::empty());
        assert(Seq::<Seq<char>>::empty() + switches_of(d) =~= switches_of(d));
    }
    let mut i: usize = 0;
    while i < words.len()
        invariant
            i <= words.len(),
            d == words.deep_view(),
            d.len() == words.len(),
            redirect_count(d) == (if redirect is Some { 1int } else { 0int }) + redirect_count(
                d.skip(i as int),
            ),
            redirect matches Some(rv) ==> rv.deep_view() == redirect_aliases_of(d),
            redirect is None ==> redirect_aliases_of(d) == redirect_aliases_of(d.skip(i as int)),
            switches_of(d) == switches.deep_view() + switches_of(d.skip(i as int)),
            switches.deep_view().no_duplicates(),
            forall|j: int| 0 <= j < i && (#[trigger] d[j]).name == "redirect"@
                ==> redirect_entry_ok(d[j].aliases),
            forall|j: int| 0 <= j < i && (#[trigger] d[j]).name != "redirect"@
                ==> switch_aliases_wf(d[j].aliases),
        decreases words.len() - i,
    {
        let w = &words[i];
        proof {
            assert(w@ == d[i as int]);
            assert(d.skip(i as int)[0] == d[i as int]);
            assert(d.skip(i as int).drop_first() =~= d.skip(i as int + 1));
        }
        if str_eq(w.name.as_str(), "redirect") {
            if redirect.is_some() {
                proof {
                    lemma_redirect_count_nonneg(d.skip(i as int + 1));
                    assert(redirect_count(d.skip(i as int)) >= 1);
                    assert(redirect_count(d) >= 2);
                }
                return Err(ConfigError::DuplicateRedirectMagicWord);
            }
            match collect_redirect_aliases(&w.aliases) {
                Err(e) => {
                    proof {
                        assert(!redirect_entry_ok(d[i as int].aliases));
                        assert(!magic_words_ok(d));
                    }
                    return Err(e);
                },
                Ok(rv) => {
                    proof {
                        assert(redirect_aliases_of(d.skip(i as int)) == d[i as int]
                            .aliases.map_values(|a: Seq<char>| strip_hash(a)));
                        assert(rv.deep_view() == redirect_aliases_of(d));
                        assert(switches_of(d.skip(i as int)) == switches_of(d.skip(i as int + 1)));
                        assert(redirect_count(d.skip(i as int)) == 1 + redirect_count(
                            d.skip(i as int + 1),
                        ));
                    }
                    redirect = Some(rv);
                },
            }
        } else {
            let ghost pre = switches.deep_view();
            match collect_switch_aliases(&mut switches, &w.aliases) {
                Err(e) => {
                    proof {
                        if e == ConfigError::MagicWordAliasNotRecognized {
                            assert(!switch_aliases_wf(d[i as int].aliases));
                            assert(!magic_words_ok(d));
                        } else {
                            let part = pre + wrapped_of(d[i as int].aliases);
                            assert(!part.no_duplicates());
                            let (p, q) = choose|p: int, q: int|
                                0 <= p < part.len() && 0 <= q < part.len() && p != q
                                    && part[p] == part[q];
                            let whole = switches_of(d);
                            assert(switches_of(d.skip(i as int)) == wrapped_of(d[i as int].aliases)
                                + switches_of(d.skip(i as int + 1)));
                            assert(whole =~= part + switches_of(d.skip(i as int + 1)));
                            assert(whole[p] == part[p] && whole[q] == part[q]);
                            assert(!whole.no_duplicates());
                            assert(!magic_words_ok(d));
                        }
                    }
                    return Err(e);
                },
                Ok(u) => {
                    proof {
                        assert(switches.deep_view() == pre + wrapped_of(d[i as int].aliases));
                        assert(switches_of(d.skip(i as int)) == wrapped_of(d[i as int].aliases)
                            + switches_of(d.skip(i as int + 1)));
                        assert(switches.deep_view() + switches_of(d.skip(i as int + 1)) =~= pre
                            + switches_of(d.skip(i as int)));
                    }
                },
            }
        }
        i = i + 1;
    }
    proof {
        assert(d.skip(d.len() as int) =~= Seq::<MagicWordView>::empty());
        assert(switches_of(Seq::<MagicWordView>::empty()) == Seq::<Seq<char>>::empty());
        assert(switches.deep_view() + Seq::<Seq<char>>::empty() =~= switches.deep_view());
    }
    match redirect {
        None => {
            proof {
                assert(redirect_count(d) == 0);
            }
            Err(ConfigError::RedirectMagicWordMissing)
        },
        Some(rv) => {
            proof {
                assert(redirect_count(d) == 1);
                assert(switches.deep_view() == switches_of(d));
                assert(magic_words_ok(d));
            }
            Ok((switches, rv))
        },
    }
}

/// The lowercase aliases that the side table assigns to the namespace with
/// the given ID, in table order.
pub open spec fn ns_lower_aliases(entries: Seq<NamespaceAliasView>, id: int) -> Seq<Seq<char>>
    decreases entries.len(),
{
    if entries.len() == 0 {
        Seq::empty()
    } else if entries[0].id == id {
        seq![lower_of(entries[0].alias)] + ns_lower_aliases(entries.drop_first(), id)
    } else {
        ns_lower_aliases(entries.drop_first(), id)
    }
}

/// Collects the lowercase file (ID 6) and category (ID 14) namespace
/// aliases from the side table, rejecting duplicates within each list.
pub fn collect_namespace_aliases(entries: &Vec<NamespaceAlias>) -> (r: Result<
    (Vec<String>, Vec<String>),
    ConfigError,
>)
    ensures
        (r matches Ok(p)) <==> (ns_lower_aliases(entries.deep_view(), 6).no_duplicates()
            && ns_lower_aliases(entries.deep_view(), 14).no_duplicates()),
        r matches Ok(p) ==> p.0.deep_view() == ns_lower_aliases(entries.deep_view(), 6)
            && p.1.deep_view() == ns_lower_aliases(entries.deep_view(), 14),
        r matches Err(e) ==> e == ConfigError::DuplicateNamespaceAlias,
{
    let ghost d = entries.deep_view();
    let mut file: Vec<String> = Vec::new();
    let mut category: Vec<String> = Vec::new();
    proof {
        assert(d.skip(0) =~= d);
        assert(file.deep_view() =~= Seq::<Seq<char>>::empty());
        assert(category.deep_view() =~= Seq::<Seq<char>>::empty());
        assert(Seq::<Seq<char>>::empty() + ns_lower_aliases(d, 6) =~= ns_lower_aliases(d, 6));
        assert(Seq::<Seq<char>>::empty() + ns_lower_aliases(d, 14) =~= ns_lower_aliases(d, 14));
    }
    let mut k: usize = 0;
    while k < entries.len()
        invariant
            k <= entries.len(),
            d == entries.deep_view(),
            d.len() == entries.len(),
            ns_lower_aliases(d, 6) == file.deep_view() + ns_lower_aliases(d.skip(k as int), 6),
            ns_lower_aliases(d, 14) == category.deep_view() + ns_lower_aliases(
                d.skip(k as int),
                14,
            ),
            file.deep_view().no_duplicates(),
            category.deep_view().no_duplicates(),
        decreases entries.len() - k,
    {
        let item = &entries[k];
        proof {
            assert(item@ == d[k as int]);
            assert(d.skip(k as int)[0] == d[k as int]);
            assert(d.skip(k as int).drop_first() =~= d.skip(k as int + 1));
        }
        if item.id == 6 {
            let low = lowercase(item.alias.as_str());
            proof {
                assert(low@ == lower_of(d[k as int].alias));
                assert(ns_lower_aliases(d.skip(k as int), 6) == seq![lower_of(d[k as int].alias)]
                    + ns_lower_aliases(d.skip(k as int + 1), 6));
            }
            if contains_str(&file, low.as_str()) {
                proof {
                    let whole = ns_lower_aliases(d, 6);
                    let fd = file.deep_view();
                    let j = choose|j: int| 0 <= j < fd.len() && fd[j] == low@;
                    assert(whole[j] == fd[j]);
                    assert(whole[fd.len() as int] == low@);
                    assert(!whole.no_duplicates());
                }
                return Err(ConfigError::DuplicateNamespaceAlias);
            }
            let ghost old_deep = file.deep_view();
            file.push(low);
            proof {
                assert(file.deep_view() =~= old_deep.push(lower_of(d[k as int].alias)));
                assert(file.deep_view() + ns_lower_aliases(d.skip(k as int + 1), 6) =~= old_deep
                    + ns_lower_aliases(d.skip(k as int), 6));
                let nd = file.deep_view();
                assert forall|p: int, q: int| 0 <= p < nd.len() && 0 <= q < nd.len() && p != q
                    implies nd[p] != nd[q] by {
                    if p < old_deep.len() && q < old_deep.len() {
                        assert(old_deep[p] != old_deep[q]);
                    } else if p < old_deep.len() {
                        assert(nd[p] == old_deep[p]);
                    } else {
                        assert(nd[q] == old_deep[q]);
                    }
                }
            }
        } else if item.id == 14 {
            let low = lowercase(item.alias.as_str());
            proof {
                assert(low@ == lower_of(d[k as int].alias));
                assert(ns_lower_aliases(d.skip(k as int), 14) == seq![lower_of(d[k as int].alias)]
                    + ns_lower_aliases(d.skip(k as int + 1), 14));
            }
            if contains_str(&category, low.as_str()) {
                proof {
                    let whole = ns_lower_aliases(d, 14);
                    let cd = category.deep_view();
                    let j = choose|j: int| 0 <= j < cd.len() && cd[j] == low@;
                    assert(whole[j] == cd[j]);
                    assert(whole[cd.len() as int] == low@);
                    assert(!whole.no_duplicates());
                }
                return Err(ConfigError::DuplicateNamespaceAlias);
            }
            let ghost old_deep = category.deep_view();
            category.push(low);
            proof {
                assert(category.deep_view() =~= old_deep.push(lower_of(d[k as int].alias)));
                assert(category.deep_view() + ns_lower_aliases(d.skip(k as int + 1), 14)
                    =~= old_deep + ns_lower_aliases(d.skip(k as int), 14));
                let nd = category.deep_view();
                assert forall|p: int, q: int| 0 <= p < nd.len() && 0 <= q < nd.len() && p != q
                    implies nd[p] != nd[q] by {
                    if p < old_deep.len() && q < old_deep.len() {
                        assert(old_deep[p] != old_deep[q]);
                    } else if p < old_deep.len() {
                        assert(nd[p] == old_deep[p]);
                    } else {
                        assert(nd[q] == old_deep[q]);
                    }
                }
            }
        } else {
            proof {
                assert(ns_lower_aliases(d.skip(k as int), 6) == ns_lower_aliases(
                    d.skip(k as int + 1),
                    6,
                ));
                assert(ns_lower_aliases(d.skip(k as int), 14) == ns_lower_aliases(
                    d.skip(k as int + 1),
                    14,
                ));
            }
        }
        k = k + 1;
    }
    proof {
        assert(d.skip(d.len() as int) =~= Seq::<NamespaceAliasView>::empty());
        assert(file.deep_view() + Seq::<Seq<char>>::empty() =~= file.deep_view());
        assert(category.deep_view() + Seq::<Seq<char>>::empty() =~= category.deep_view());
    }
    Ok((file, category))
}

/// The namespace that the table maps the given key to: the first entry
/// whose key matches.
pub open spec fn lookup_namespace(entries: Seq<NamespaceEntryView>, key: Seq<char>) -> Option<
    NamespaceView,
>
    decreases entries.len(),
{
    if entries.len() == 0 {
        None
    } else if entries[0].key == key {
        Some(entries[0].namespace)
    } else {
        lookup_namespace(entries.drop_first(), key)
    }
}

/// Finds the namespace stored under the given table key.
pub fn find_namespace<'a>(entries: &'a Vec<NamespaceEntry>, key: &str) -> (r: Option<
    &'a Namespace,
>)
    ensures
        match r {
            None => lookup_namespace(entries.deep_view(), key@) is None,
            Some(ns) => lookup_namespace(entries.deep_view(), key@) == Some(ns@),
        },
{
    let ghost d = entries.deep_view();
    proof {
        assert(d.skip(0) =~= d);
    }
    let mut k: usize = 0;
    while k < entries.len()
        invariant
            k <= entries.len(),
            d == entries.deep_view(),
            d.len() == entries.len(),
            lookup_namespace(d, key@) == lookup_namespace(d.skip(k as int), key@),
        decreases entries.len() - k,
    {
        proof {
            assert(entries[k as int]@ == d[k as int]);
            assert(d.skip(k as int)[0] == d[k as int]);
            assert(d.skip(k as int).drop_first() =~= d.skip(k as int + 1));
        }
        if str_eq(entries[k].key.as_str(), key) {
            return Some(&entries[k].namespace);
        }
        k = k + 1;
    }
    proof {
        assert(d.skip(d.len() as int) =~= Seq::<NamespaceEntryView>::empty());
    }
    None
}

/// The lowercase names that one namespace entry contributes: the canonical
/// name first when it differs from the display alias, then the alias.
pub open spec fn namespace_addition(ns: NamespaceView) -> Seq<Seq<char>>
    recommends
        ns.canonical is Some,
{
    if lower_of(ns.canonical.unwrap()) != lower_of(ns.alias) {
        seq![lower_of(ns.canonical.unwrap()), lower_of(ns.alias)]
    } else {
        seq![lower_of(ns.alias)]
    }
}

/// Whether one canonical namespace entry is acceptable: present, with
/// the expected ID and a canonical name, and no clash with the aliases
/// collected so far.
pub open spec fn add_namespace_ok(
    prev: Seq<Seq<char>>,
    namespace: Option<NamespaceView>,
    id: int,
) -> bool {
    &&& namespace is Some
    &&& namespace.unwrap().id == id
    &&& !prev.contains(lower_of(namespace.unwrap().alias))
    &&& namespace.unwrap().canonical is Some
    &&& (lower_of(namespace.unwrap().canonical.unwrap()) != lower_of(namespace.unwrap().alias)
        ==> !prev.contains(lower_of(namespace.unwrap().canonical.unwrap())))
}

/// Appends the lowercase canonical name and display alias of a namespace
/// table entry to the collected aliases of that namespace.
///
/// Succeeds exactly when the entry exists, carries the expected ID and a
/// canonical name, and neither lowercase name repeats an earlier one.
pub fn add_namespace(
    namespaces: &mut Vec<String>,
    namespace: Option<&Namespace>,
    id: i32,
) -> (r: Result<(), ConfigError>)
    ensures
        (r matches Ok(u)) <==> add_namespace_ok(
            old(namespaces).deep_view(),
            namespace.deep_view(),
            id as int,
        ),
        r matches Ok(u) ==> final(namespaces).deep_view() == old(namespaces).deep_view()
            + namespace_addition(namespace.deep_view().unwrap()),
        r matches Err(e) ==> final(namespaces).deep_view() == old(namespaces).deep_view(),
        (r == Err::<(), ConfigError>(ConfigError::NamespaceMissing)) <==> namespace is None,
        (r == Err::<(), ConfigError>(ConfigError::NamespaceIdMismatch)) <==> (namespace matches
            Some(ns) && ns@.id != id as int),
        (r == Err::<(), ConfigError>(ConfigError::DuplicateNamespaceAlias)) <==> (namespace
            matches Some(ns) && ns@.id == id as int && (old(namespaces).deep_view().contains(
            lower_of(ns@.alias),
        ) || (ns@.canonical is Some && lower_of(ns@.canonical.unwrap()) != lower_of(ns@.alias)
            && !old(namespaces).deep_view().contains(lower_of(ns@.alias)) && old(
            namespaces,
        ).deep_view().contains(lower_of(ns@.canonical.unwrap()))))),
        (r == Err::<(), ConfigError>(ConfigError::NamespaceCanonicalMissing)) <==> (namespace
            matches Some(ns) && ns@.id == id as int && !old(namespaces).deep_view().contains(
            lower_of(ns@.alias),
        ) && ns@.canonical is None),
        r matches Err(e) ==> (e == ConfigError::NamespaceMissing
            || e == ConfigError::NamespaceIdMismatch || e == ConfigError::DuplicateNamespaceAlias
            || e == ConfigError::NamespaceCanonicalMissing),
{
    match namespace {
        None => Err(ConfigError::NamespaceMissing),
        Some(ns) => {
            if ns.id != id {
                return Err(ConfigError::NamespaceIdMismatch);
            }
            let alias_low = lowercase(ns.alias.as_str());
            proof {
                assert(alias_low@ == lower_of(ns@.alias));
            }
            if contains_str(namespaces, alias_low.as_str()) {
                return Err(ConfigError::DuplicateNamespaceAlias);
            }
            match &ns.canonical {
                None => Err(ConfigError::NamespaceCanonicalMissing),
                Some(canonical) => {
                    let canonical_low = lowercase(canonical.as_str());
                    proof {
                        assert(canonical_low@ == lower_of(ns@.canonical.unwrap()));
                    }
                    let ghost base = namespaces.deep_view();
                    if !str_eq(canonical_low.as_str(), alias_low.as_str()) {
                        if contains_str(namespaces, canonical_low.as_str()) {
                            return Err(ConfigError::DuplicateNamespaceAlias);
                        }
                        namespaces.push(canonical_low);
                        proof {
                            assert(namespaces.deep_view() =~= base.push(
                                lower_of(ns@.canonical.unwrap()),
                            ));
                        }
                        namespaces.push(alias_low);
                        proof {
                            assert(namespaces.deep_view() =~= base + namespace_addition(ns@));
                        }
                    } else {
                        namespaces.push(alias_low);
                        proof {
                            assert(namespaces.deep_view() =~= base + namespace_addition(ns@));
                        }
                    }
                    Ok(())
                },
            }
        },
    }
}

/// Checks the protocol list for duplicates and returns it sorted.
pub fn check_protocols(protocols: &Vec<String>) -> (r: Result<Vec<String>, ConfigError>)
    ensures
        (r matches Ok(out)) <==> protocols.deep_view().no_duplicates(),
        r matches Ok(out) ==> out.deep_view() == protocols.deep_view().sort_by(lex_leq()),
        r matches Err(e) ==> e == ConfigError::DuplicateProtocol,
{
    let ghost d = protocols.deep_view();
    let sorted = sort_strings(protocols);
    let ghost sd = sorted.deep_view();
    proof {
        lemma_lex_leq_total_ordering();
        d.lemma_sort_by_ensures(lex_leq());
    }
    let len = sorted.len();
    let mut t: usize = 0;
    while len >= 1 && t < len - 1
        invariant
            len == sorted.len(),
            len >= 1 ==> t <= len - 1,
            len == 0 ==> t == 0,
            sd == sorted.deep_view(),
            sd.len() == len,
            d == protocols.deep_view(),
            sd == d.sort_by(lex_leq()),
            vstd::relations::sorted_by(sd, lex_leq()),
            sd.to_multiset() == d.to_multiset(),
            forall|p: int| 0 <= p < t ==> #[trigger] sd[p] != sd[p + 1],
        decreases len - t,
    {
        proof {
            assert(sorted[t as int]@ == sd[t as int]);
            assert(sorted[t as int + 1]@ == sd[t as int + 1]);
        }
        if str_eq(sorted[t].as_str(), sorted[t + 1].as_str()) {
            proof {
                assert(sd[t as int] == sd[t as int + 1]);
                assert(!sd.no_duplicates());
                if d.no_duplicates() {
                    d.lemma_multiset_has_no_duplicates();
                    sd.lemma_multiset_has_no_duplicates_conv();
                    assert(false);
                }
            }
            return Err(ConfigError::DuplicateProtocol);
        }
        t = t + 1;
    }
    proof {
        assert forall|p: int, q: int| 0 <= p < sd.len() && 0 <= q < sd.len() && p != q
            implies sd[p] != sd[q] by {
            let lo = if p < q { p } else { q };
            let hi = if p < q { q } else { p };
            if sd[lo] == sd[hi] {
                assert(lex_leq()(sd[lo], sd[lo + 1]));
                if lo + 1 < hi {
                    assert(lex_leq()(sd[lo + 1], sd[hi]));
                } else {
                    crate::order::lemma_lex_le_reflexive(sd[hi]);
                }
                lemma_lex_le_antisymmetric(sd[lo], sd[lo + 1]);
                assert(sd[lo] == sd[lo + 1]);
            }
        }
        assert(sd.no_duplicates());
        sd.lemma_multiset_has_no_duplicates();
        d.lemma_multiset_has_no_duplicates_conv();
        assert(d.no_duplicates());
    }
    Ok(sorted)
}

/// The characters of a string, as a vector.
fn str_chars(s: &str) -> (r: Vec<char>)
    ensures
        r@ == s@,
{
    let n = s.unicode_len();
    let mut out: Vec<char> = Vec::new();
    let mut i: usize = 0;
    while i < n
        invariant
            i <= n,
            n == s@.len(),
            out@ == s@.take(i as int),
        decreases n - i,
    {
        out.push(s.get_char(i));
        proof {
            assert(s@.take(i as int + 1) =~= s@.take(i as int).push(s@[i as int]));
        }
        i = i + 1;
    }
    proof {
        assert(s@.take(n as int) =~= s@);
    }
    out
}

/// The characters of a vector, as a string.
fn chars_string(v: &Vec<char>) -> (r: String)
    ensures
        r@ == v@,
{
    let mut out = String::new();
    let mut i: usize = 0;
    while i < v.len()
        invariant
            i <= v.len(),
            out@ == v@.take(i as int),
        decreases v.len() - i,
    {
        out.push(v[i]);
        proof {
            assert(v@.take(i as int + 1) =~= v@.take(i as int).push(v@[i as int]));
        }
        i = i + 1;
    }
    proof {
        assert(v@.take(v.len() as int) =~= v@);
    }
    out
}

/// A sorted character sequence with runs of equal characters collapsed:
/// of each run, the last character stays.
pub open spec fn dedup_chars(s: Seq<char>) -> Seq<char>
    decreases s.len(),
{
    if s.len() == 0 {
        Seq::empty()
    } else if s.len() >= 2 && s[0] == s[1] {
        dedup_chars(s.drop_first())
    } else {
        seq![s[0]] + dedup_chars(s.drop_first())
    }
}

/// Collapses runs of equal adjacent characters.
fn dedup_sorted_chars(v: &Vec<char>) -> (r: Vec<char>)
    ensures
        r@ == dedup_chars(v@),
{
    let n = v.len();
    let mut out: Vec<char> = Vec::new();
    proof {
        assert(v@.skip(0) =~= v@);
        assert(out@ + dedup_chars(v@) =~= dedup_chars(v@));
    }
    let mut i: usize = 0;
    while i < n
        invariant
            i <= n,
            n == v.len(),
            out@ + dedup_chars(v@.skip(i as int)) == dedup_chars(v@),
        decreases n - i,
    {
        let ghost rest = v@.skip(i as int);
        proof {
            assert(rest[0] == v@[i as int]);
            if i + 1 < n {
                assert(rest[1] == v@[i as int + 1]);
            }
            assert(rest.drop_first() =~= v@.skip(i as int + 1));
        }
        if i + 1 == n || v[i] != v[i + 1] {
            let ghost pre = out@;
            out.push(v[i]);
            proof {
                assert(dedup_chars(rest) == seq![rest[0]] + dedup_chars(rest.drop_first()));
                assert(out@ + dedup_chars(v@.skip(i as int + 1)) =~= pre + dedup_chars(rest));
            }
        } else {
            proof {
                assert(dedup_chars(rest) == dedup_chars(rest.drop_first()));
            }
        }
        i = i + 1;
    }
    proof {
        assert(v@.skip(n as int) =~= Seq::<char>::empty());
        assert(out@ + Seq::<char>::empty() =~= out@);
    }
    out
}

/// All validation gates of the pipeline at once: the metadata is accepted
/// exactly when each holds.
pub open spec fn metadata_ok(m: crate::model::SiteMetadataView) -> bool {
    &&& extension_tags_ok(m.extension_tags)
    &&& link_trail_ok(m.link_trail)
    &&& magic_words_ok(m.magic_words)
    &&& ns_lower_aliases(m.namespace_aliases, 6).no_duplicates()
    &&& ns_lower_aliases(m.namespace_aliases, 14).no_duplicates()
    &&& add_namespace_ok(
        ns_lower_aliases(m.namespace_aliases, 6),
        lookup_namespace(m.namespaces, "6"@),
        6,
    )
    &&& add_namespace_ok(
        ns_lower_aliases(m.namespace_aliases, 14),
        lookup_namespace(m.namespaces, "14"@),
        14,
    )
    &&& m.protocols.no_duplicates()
}

/// The full namespace name list for one ID: side-table aliases, then the
/// table entry's contribution, sorted.
pub open spec fn final_namespaces(m: crate::model::SiteMetadataView, id: int, key: Seq<char>)
    -> Seq<Seq<char>> {
    (ns_lower_aliases(m.namespace_aliases, id) + namespace_addition(
        lookup_namespace(m.namespaces, key).unwrap(),
    )).sort_by(lex_leq())
}

/// Validates and normalizes the site metadata into the canonical
/// configuration.
///
/// Succeeds exactly when every gate of the pipeline holds; the output
/// lists are the collected values, sorted, and the link-trail character
/// set is sorted with duplicates collapsed.
pub fn create_configuration(metadata: &SiteMetadata) -> (r: Result<
    NormalizedConfiguration,
    ConfigError,
>)
    ensures
        (r matches Ok(c)) <==> metadata_ok(metadata@),
        r matches Ok(c) ==> {
            &&& c@.category_namespaces == final_namespaces(metadata@, 14, "14"@)
            &&& c@.extension_tags == stripped_tags(metadata@.extension_tags).sort_by(lex_leq())
            &&& c@.file_namespaces == final_namespaces(metadata@, 6, "6"@)
            &&& c@.link_trail == dedup_chars(
                expand_ranges(link_trail_class(metadata@.link_trail).unwrap()).sort_by(char_leq()),
            )
            &&& c@.magic_words == switches_of(metadata@.magic_words).sort_by(lex_leq())
            &&& c@.protocols == metadata@.protocols.sort_by(lex_leq())
            &&& c@.redirect_magic_words == redirect_aliases_of(metadata@.magic_words).sort_by(
                lex_leq(),
            )
        },
        r == Err::<NormalizedConfiguration, ConfigError>(ConfigError::ExtensionTagNotRecognized)
            ==> exists|i: int| 0 <= i < metadata@.extension_tags.len() && !valid_extension_tag(
            #[trigger] metadata@.extension_tags[i],
        ),
        r == Err::<NormalizedConfiguration, ConfigError>(ConfigError::DuplicateExtensionTag)
            ==> !stripped_tags(metadata@.extension_tags).no_duplicates(),
        r == Err::<NormalizedConfiguration, ConfigError>(ConfigError::LinkTrailNotRecognized)
            ==> !link_trail_ok(metadata@.link_trail),
        r == Err::<NormalizedConfiguration, ConfigError>(ConfigError::DuplicateRedirectMagicWord)
            ==> redirect_count(metadata@.magic_words) >= 2,
        r == Err::<NormalizedConfiguration, ConfigError>(ConfigError::RedirectMagicWordMissing)
            ==> redirect_count(metadata@.magic_words) == 0,
        r matches Err(e) && (e == ConfigError::RedirectAliasNotRecognized
            || e == ConfigError::DuplicateRedirectAlias
            || e == ConfigError::MagicWordAliasNotRecognized
            || e == ConfigError::DuplicateMagicWord) ==> !magic_words_ok(metadata@.magic_words),
        r == Err::<NormalizedConfiguration, ConfigError>(ConfigError::NamespaceMissing) ==> (
        lookup_namespace(metadata@.namespaces, "6"@) is None || lookup_namespace(
            metadata@.namespaces,
            "14"@,
        ) is None),
        r == Err::<NormalizedConfiguration, ConfigError>(ConfigError::NamespaceIdMismatch) ==> ((
        lookup_namespace(metadata@.namespaces, "6"@) matches Some(ns) && ns.id != 6) || (
        lookup_namespace(metadata@.namespaces, "14"@) matches Some(ns) && ns.id != 14)),
        r == Err::<NormalizedConfiguration, ConfigError>(ConfigError::NamespaceCanonicalMissing)
            ==> ((lookup_namespace(metadata@.namespaces, "6"@) matches Some(ns)
            && ns.canonical is None) || (lookup_namespace(metadata@.namespaces, "14"@) matches
            Some(ns) && ns.canonical is None)),
        r == Err::<NormalizedConfiguration, ConfigError>(ConfigError::DuplicateNamespaceAlias)
            ==> !(ns_lower_aliases(metadata@.namespace_aliases, 6).no_duplicates()
            && ns_lower_aliases(metadata@.namespace_aliases, 14).no_duplicates()
            && add_namespace_ok(
            ns_lower_aliases(metadata@.namespace_aliases, 6),
            lookup_namespace(metadata@.namespaces, "6"@),
            6,
        ) && add_namespace_ok(
            ns_lower_aliases(metadata@.namespace_aliases, 14),
            lookup_namespace(metadata@.namespaces, "14"@),
            14,
        )),
        r == Err::<NormalizedConfiguration, ConfigError>(ConfigError::DuplicateProtocol)
            ==> !metadata@.protocols.no_duplicates(),
{
    let extension_tags = match normalize_extension_tags(&metadata.extension_tags) {
        Err(e) => {
            return Err(e);
        },
        Ok(v) => v,
    };
    let expanded = match parse_link_trail(metadata.link_trail.as_str()) {
        Err(e) => {
            return Err(e);
        },
        Ok(v) => v,
    };
    let word_lists = match collect_magic_words(&metadata.magic_words) {
        Err(e) => {
            return Err(e);
        },
        Ok(v) => v,
    };
    let magic_words = word_lists.0;
    let redirect_magic_words = word_lists.1;
    let ns_lists = match collect_namespace_aliases(&metadata.namespace_aliases) {
        Err(e) => {
            return Err(e);
        },
        Ok(v) => v,
    };
    let mut file_namespaces = ns_lists.0;
    let mut category_namespaces = ns_lists.1;
    let file_entry = find_namespace(&metadata.namespaces, "6");
    match add_namespace(&mut file_namespaces, file_entry, 6) {
        Err(e) => {
            return Err(e);
        },
        Ok(u) => {},
    }
    let category_entry = find_namespace(&metadata.namespaces, "14");
    match add_namespace(&mut category_namespaces, category_entry, 14) {
        Err(e) => {
            return Err(e);
        },
        Ok(u) => {},
    }
    let protocols = match check_protocols(&metadata.protocols) {
        Err(e) => {
            return Err(e);
        },
        Ok(v) => v,
    };
    let category_namespaces = sort_strings(&category_namespaces);
    let extension_tags = sort_strings(&extension_tags);
    let file_namespaces = sort_strings(&file_namespaces);
    let trail_chars = str_chars(expanded.as_str());
    let trail_sorted = sort_chars(&trail_chars);
    let trail_deduped = dedup_sorted_chars(&trail_sorted);
    let link_trail = chars_string(&trail_deduped);
    let magic_words = sort_strings(&magic_words);
    let redirect_magic_words = sort_strings(&redirect_magic_words);
    Ok(
        NormalizedConfiguration {
            category_namespaces,
            extension_tags,
            file_namespaces,
            link_trail,
            magic_words,
            protocols,
            redirect_magic_words,
        },
    )
}

} // verus!
