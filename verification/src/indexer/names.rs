//! The names under which the file map records the files of the archives.

use vstd::prelude::*;

use crate::indexer::dom::{dom_view, node_attr, parse_dom, spec_parse_dom, DomNode};
use crate::indexer::items::{shorten, shorten_id};
use crate::text::str_from_utf8;

verus! {

/// `s` ends with `suffix`.
pub open spec fn ends_with(s: Seq<char>, suffix: Seq<char>) -> bool {
    s.len() >= suffix.len() && s.subrange(s.len() - suffix.len(), s.len() as int) == suffix
}

/// Whether the name of a file of `archive` named `name` is read from the
/// file's content: entries and pronunciation practice, and XML files of
/// other archives than the pictures.
pub open spec fn reads_content(archive: Seq<char>, name: Seq<char>) -> bool {
    archive != "picture"@ && (archive == "fs"@ || archive == "pronpractice"@ || ends_with(name, ".xml"@))
}

/// The name that the root element of the XML file `content` gives: its
/// `id` (shortened when `short`), else its `idm_id`.
pub open spec fn root_name(content: Seq<u8>, short: bool) -> Option<Seq<char>> {
    if vstd::utf8::valid_utf8(content) {
        match spec_parse_dom(vstd::utf8::decode_utf8(content)) {
            Some(d) => if d.len() > 0 {
                match node_attr(d[0], "id"@) {
                    Some(v) => Some(if short {
                        shorten(v)
                    } else {
                        v
                    }),
                    None => node_attr(d[0], "idm_id"@),
                }
            } else {
                None
            },
            None => None,
        }
    } else {
        None
    }
}

/// The file-map name of file `name` of `archive` in the directory whose
/// path starts with `first_dir`, with its content when it was read: a
/// picture is named with its first directory; an entry by its root
/// element's short id; another XML file by its root element's id.
pub open spec fn mapped_name_of(archive: Seq<char>, first_dir: Option<Seq<char>>, name: Seq<char>, content: Option<Seq<u8>>) -> Seq<char> {
    if archive == "picture"@ {
        match first_dir {
            Some(d) => d + "/"@ + name,
            None => name,
        }
    } else if reads_content(archive, name) {
        match content {
            Some(c) => match root_name(c, archive == "fs"@ || archive == "pronpractice"@) {
                Some(n) => n,
                None => name,
            },
            None => name,
        }
    } else {
        name
    }
}

/// Whether the file-map name of file `name` of `archive` is read from its
/// content.
pub fn needs_content(archive: &str, name: &str) -> (r: bool)
    ensures
        r == reads_content(archive@, name@),
{
    let n = name.unicode_len();
    let xml = n >= 4 && crate::history::str_equal(name.substring_char(n - 4, n), ".xml");
    proof {
        reveal_strlit(".xml");
    }
    !crate::history::str_equal(archive, "picture") && (crate::history::str_equal(archive, "fs")
        || crate::history::str_equal(archive, "pronpractice") || xml)
}

/// The attribute `key` of the first node.
fn root_attr(nodes: &Vec<DomNode>, key: &str) -> (r: Option<String>)
    requires
        nodes@.len() > 0,
    ensures
        crate::indexer::dom::opt_view(r) == node_attr(dom_view(nodes@)[0], key@),
{
    assert(dom_view(nodes@)[0] == crate::indexer::dom::node_view(nodes@[0]));
    crate::indexer::items::attr_of(&nodes[0], key)
}

/// The file-map name of file `name` of `archive`, with the first directory
/// of its path and, when it was read, its content.
pub fn mapped_name(archive: &str, first_dir: Option<&str>, name: &str, content: Option<&[u8]>) -> (r: String)
    ensures
        r@ == mapped_name_of(
            archive@,
            match first_dir {
                Some(d) => Some(d@),
                None => None,
            },
            name@,
            match content {
                Some(c) => Some(c@),
                None => None,
            },
        ),
{
    if crate::history::str_equal(archive, "picture") {
        return match first_dir {
            Some(d) => {
                let mut r = String::from_str(d);
                r.append("/");
                r.append(name);
                r
            },
            None => String::from_str(name),
        };
    }
    if !needs_content(archive, name) {
        return String::from_str(name);
    }
    let short = crate::history::str_equal(archive, "fs") || crate::history::str_equal(archive, "pronpractice");
    let c = match content {
        Some(c) => c,
        None => {
            return String::from_str(name);
        },
    };
    let text = match str_from_utf8(c) {
        Some(t) => t,
        None => {
            return String::from_str(name);
        },
    };
    let nodes = match parse_dom(text.as_str()) {
        Some(n) => n,
        None => {
            return String::from_str(name);
        },
    };
    if nodes.len() == 0 {
        return String::from_str(name);
    }
    match root_attr(&nodes, "id") {
        Some(v) => if short {
            shorten_id(v.as_str())
        } else {
            v
        },
        None => match root_attr(&nodes, "idm_id") {
            Some(v) => v,
            None => String::from_str(name),
        },
    }
}

} // verus!
