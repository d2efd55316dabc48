//! Rendering of the normalized configuration as a source-code fragment
//! that defines a parameterless factory for a wiki-text parser
//! configuration object.

use vstd::prelude::*;
use crate::model::{NormalizedConfiguration, NormalizedConfigurationView};
use crate::textops::quote;
use crate::textops::quoted_of;

verus! {

/// One rendered list element: indentation, the quoted item, a comma and a
/// line break.
pub open spec fn rendered_item(item: Seq<char>) -> Seq<char> {
    "            "@ + quoted_of(item) + ",\n"@
}

/// A rendered list body: one line per item, in order.
pub open spec fn rendered_items(items: Seq<Seq<char>>) -> Seq<char>
    decreases items.len(),
{
    if items.len() == 0 {
        Seq::empty()
    } else {
        rendered_item(items[0]) + rendered_items(items.drop_first())
    }
}

/// The full fragment: the factory function around the seven fields, each
/// list rendered as a literal array of quoted strings and the link trail
/// as a quoted string literal.
pub open spec fn rendered_configuration(c: NormalizedConfigurationView) -> Seq<char> {
    "pub fn create_configuration() -> ::parse_wiki_text::Configuration {\n    ::parse_wiki_text::create_configuration(&::parse_wiki_text::ConfigurationSource {\n        category_namespaces: &[\n"@
        + rendered_items(c.category_namespaces)
        + "        ],\n        extension_tags: &[\n"@
        + rendered_items(c.extension_tags)
        + "        ],\n        file_namespaces: &[\n"@
        + rendered_items(c.file_namespaces)
        + "        ],\n        link_trail: "@
        + quoted_of(c.link_trail)
        + ",\n        magic_words: &[\n"@
        + rendered_items(c.magic_words)
        + "        ],\n        protocols: &[\n"@
        + rendered_items(c.protocols)
        + "        ],\n        redirect_magic_words: &[\n"@
        + rendered_items(c.redirect_magic_words)
        + "        ]\n    })\n}\n"@
}

/// Appends one line per item to the output.
fn append_items(out: &mut String, items: &Vec<String>) -> (u: ())
    ensures
        final(out)@ == old(out)@ + rendered_items(items.deep_view()),
{
    let ghost d = items.deep_view();
    let ghost base = old(out)@;
    proof {
        assert(d.skip(0) =~= d);
    }
    let mut i: usize = 0;
    while i < items.len()
        invariant
            i <= items.len(),
            d == items.deep_view(),
            d.len() == items.len(),
            base == old(out)@,
            out@ + rendered_items(d.skip(i as int)) == base + rendered_items(d),
        decreases items.len() - i,
    {
        let ghost rest = d.skip(i as int);
        let ghost pre = out@;
        proof {
            assert(rest[0] == d[i as int]);
            assert(rest.drop_first() =~= d.skip(i as int + 1));
            assert(items[i as int]@ == d[i as int]);
        }
        out.append("            ");
        let quoted = quote(items[i].as_str());
        out.append(quoted.as_str());
        out.append(",\n");
        proof {
            assert(out@ =~= pre + rendered_item(d[i as int]));
            assert(out@ + rendered_items(d.skip(i as int + 1)) =~= pre + rendered_items(rest));
        }
        i = i + 1;
    }
    proof {
        assert(d.skip(d.len() as int) =~= Seq::<Seq<char>>::empty());
        assert(out@ + Seq::<char>::empty() =~= out@);
    }
}

/// Renders the normalized configuration as the source-code fragment.
pub fn render_configuration(config: &NormalizedConfiguration) -> (r: String)
    ensures
        r@ == rendered_configuration(config@),
{
    let mut out = String::new();
    out.append(
        "pub fn create_configuration() -> ::parse_wiki_text::Configuration {\n    ::parse_wiki_text::create_configuration(&::parse_wiki_text::ConfigurationSource {\n        category_namespaces: &[\n",
    );
    append_items(&mut out, &config.category_namespaces);
    out.append("        ],\n        extension_tags: &[\n");
    append_items(&mut out, &config.extension_tags);
    out.append("        ],\n        file_namespaces: &[\n");
    append_items(&mut out, &config.file_namespaces);
    out.append("        ],\n        link_trail: ");
    let quoted_trail = quote(config.link_trail.as_str());
    out.append(quoted_trail.as_str());
    out.append(",\n        magic_words: &[\n");
    append_items(&mut out, &config.magic_words);
    out.append("        ],\n        protocols: &[\n");
    append_items(&mut out, &config.protocols);
    out.append("        ],\n        redirect_magic_words: &[\n");
    append_items(&mut out, &config.redirect_magic_words);
    out.append("        ]\n    })\n}\n");
    out
}

} // verus!
