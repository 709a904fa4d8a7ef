//! The local-prefix list of the collector's configuration: comma-separated
//! `network/prefix_len[@tenant[@hostgroup]]` entries, such as
//! `10.0.0.0/8@wetechi@core,2001:db8::/32`. Fields are separated by `@`,
//! not `:`, because IPv6 addresses hold colons. The tenant defaults to
//! `default` and the hostgroup to none.
//!
//! The address text itself is read by the caller, with the platform's
//! address parser; everything else about an entry is read here.

use vstd::prelude::*;

verus! {

use crate::document::{cidr_parts, parse_u8, split_cidr, u8_value};
use crate::render::text_of_range;
use crate::text::{chars_of, trim_chars, trimmed};

/// The pieces `str::split` yields for `s`, the piece in progress being
/// `cur`: the text between separators, empty pieces included.
pub open spec fn split_from(s: Seq<char>, sep: char, cur: Seq<char>) -> Seq<Seq<char>>
    decreases s.len(),
{
    if s.len() == 0 {
        seq![cur]
    } else if s[0] == sep {
        seq![cur] + split_from(s.drop_first(), sep, Seq::empty())
    } else {
        split_from(s.drop_first(), sep, cur.push(s[0]))
    }
}

/// The pieces of `s` between occurrences of `sep`, as `str::split` gives
/// them: never none, and an empty piece for each pair of adjacent
/// separators.
#[verifier::opaque]
pub open spec fn split_on(s: Seq<char>, sep: char) -> Seq<Seq<char>> {
    split_from(s, sep, Seq::empty())
}

/// The texts of a sequence of character vectors.
pub open spec fn texts(v: Seq<Vec<char>>) -> Seq<Seq<char>> {
    v.map_values(|x: Vec<char>| x@)
}

/// The pieces, each trimmed, without those left empty.
pub open spec fn nonblank(parts: Seq<Seq<char>>) -> Seq<Seq<char>>
    decreases parts.len(),
{
    if parts.len() == 0 {
        Seq::empty()
    } else {
        let rest = nonblank(parts.drop_last());
        let t = trimmed(parts.last());
        if t.len() == 0 { rest } else { rest.push(t) }
    }
}

/// The entries of a prefix list, each trimmed; blank ones are skipped.
pub open spec fn list_entries(raw: Seq<char>) -> Seq<Seq<char>> {
    nonblank(split_on(raw, ','))
}

/// One entry of a prefix list, read: the address text, the prefix length
/// if the text after `/` is one, the tenant and the hostgroup.
#[derive(Debug, Clone, PartialEq, Eq)]
pub struct PrefixListEntry {
    pub network: String,
    pub prefix_len: Option<u8>,
    pub tenant: String,
    pub hostgroup: Option<String>,
}

pub struct PrefixListEntryView {
    pub network: Seq<char>,
    pub prefix_len: Option<u8>,
    pub tenant: Seq<char>,
    pub hostgroup: Option<Seq<char>>,
}

impl View for PrefixListEntry {
    type V = PrefixListEntryView;

    open spec fn view(&self) -> PrefixListEntryView {
        PrefixListEntryView {
            network: self.network@,
            prefix_len: self.prefix_len,
            tenant: self.tenant@,
            hostgroup: match self.hostgroup {
                Some(h) => Some(h@),
                None => None,
            },
        }
    }
}

/// What an entry says, or `None` when its first field has no `/`.
#[verifier::opaque]
pub open spec fn entry_fields(entry: Seq<char>) -> Option<PrefixListEntryView> {
    let fields = split_on(entry, '@');
    match cidr_parts(fields[0]) {
        None => None,
        Some((address, length)) => Some(PrefixListEntryView {
            network: address,
            prefix_len: u8_value(length),
            tenant: if fields.len() > 1 { fields[1] } else { "default"@ },
            hostgroup: if fields.len() > 2 { Some(fields[2]) } else { None },
        }),
    }
}

/// The views of a sequence of read entries.
pub open spec fn entry_views(v: Seq<Option<PrefixListEntry>>) -> Seq<Option<PrefixListEntryView>> {
    v.map_values(|e: Option<PrefixListEntry>| match e {
        Some(x) => Some(x@),
        None => None,
    })
}

/// Splits `v` at each `sep`.
pub fn split_chars(v: &Vec<char>, sep: char) -> (r: Vec<Vec<char>>)
    ensures
        texts(r@) == split_on(v@, sep),
{
    reveal(split_on);
    let mut parts: Vec<Vec<char>> = Vec::new();
    let mut cur: Vec<char> = Vec::new();
    let mut i: usize = 0;
    proof {
        assert(v@.subrange(0, v@.len() as int) =~= v@);
        assert(texts(parts@) =~= Seq::<Seq<char>>::empty());
        assert(cur@ =~= Seq::<char>::empty());
    }
    while i < v.len()
        invariant
            i <= v@.len(),
            texts(parts@) + split_from(v@.subrange(i as int, v@.len() as int), sep, cur@) == split_on(v@, sep),
        decreases v@.len() - i,
    {
        let ghost rest = v@.subrange(i as int, v@.len() as int);
        proof {
            assert(rest.drop_first() =~= v@.subrange(i + 1, v@.len() as int));
            assert(rest[0] == v@[i as int]);
        }
        if v[i] == sep {
            let ghost before = texts(parts@);
            let ghost done = cur@;
            parts.push(cur);
            cur = Vec::new();
            proof {
                assert(texts(parts@) =~= before.push(done));
                assert(cur@ =~= Seq::<char>::empty());
                assert(before + (seq![done] + split_from(rest.drop_first(), sep, Seq::empty())) =~= before.push(done)
                    + split_from(rest.drop_first(), sep, Seq::empty()));
            }
        } else {
            cur.push(v[i]);
        }
        i = i + 1;
    }
    let ghost before = texts(parts@);
    let ghost done = cur@;
    parts.push(cur);
    proof {
        assert(v@.subrange(i as int, v@.len() as int).len() == 0);
        assert(texts(parts@) =~= before.push(done));
        assert(before + seq![done] =~= before.push(done));
    }
    parts
}

/// Reads one trimmed, non-blank entry.
fn read_entry(entry: &Vec<char>) -> (r: Option<PrefixListEntry>)
    ensures
        match r {
            Some(x) => entry_fields(entry@) == Some(x@),
            None => entry_fields(entry@) is None,
        },
{
    let fields = split_chars(entry, '@');
    let ghost fs = split_on(entry@, '@');
    proof {
        assert(fs.len() > 0) by {
            reveal(split_on);
            lemma_split_from_nonempty(entry@, '@', Seq::empty());
        }
        assert(fields@[0]@ == fs[0]);
    }
    let first = text_of_range(&fields[0], 0, fields[0].len());
    assert(first@ =~= fs[0]);
    match split_cidr(first.as_str()) {
        Err(_) => {
            proof {
                reveal(entry_fields);
            }
            None
        },
        Ok((address, length)) => {
            let length_chars = chars_of(length.as_str());
            let prefix_len = parse_u8(&length_chars);
            let tenant = if fields.len() > 1 {
                assert(fields@[1]@ == fs[1]);
                let t = text_of_range(&fields[1], 0, fields[1].len());
                assert(t@ =~= fs[1]);
                t
            } else {
                String::from_str("default")
            };
            let hostgroup = if fields.len() > 2 {
                assert(fields@[2]@ == fs[2]);
                let h = text_of_range(&fields[2], 0, fields[2].len());
                assert(h@ =~= fs[2]);
                Some(h)
            } else {
                None
            };
            let r = PrefixListEntry { network: address, prefix_len, tenant, hostgroup };
            proof {
                reveal_strlit("default");
                assert(tenant@ == if fs.len() > 1 { fs[1] } else { "default"@ });
                assert(r@.hostgroup == if fs.len() > 2 { Some(fs[2]) } else { None::<Seq<char>> });
                assert(prefix_len == u8_value(length@));
                reveal(entry_fields);
            }
            Some(r)
        },
    }
}

proof fn lemma_split_from_nonempty(s: Seq<char>, sep: char, cur: Seq<char>)
    ensures
        split_from(s, sep, cur).len() > 0,
    decreases s.len(),
{
    if s.len() > 0 && s[0] != sep {
        lemma_split_from_nonempty(s.drop_first(), sep, cur.push(s[0]));
    }
}

/// Reads each non-blank entry of a prefix list, in order: `None` for an
/// entry whose first field is not `network/prefix_len`.
pub fn split_local_prefixes(raw: &str) -> (r: Vec<Option<PrefixListEntry>>)
    ensures
        entry_views(r@) == list_entries(raw@).map_values(|e: Seq<char>| entry_fields(e)),
{
    let chars = chars_of(raw);
    let parts = split_chars(&chars, ',');
    let mut out: Vec<Option<PrefixListEntry>> = Vec::new();
    let mut i: usize = 0;
    proof {
        assert(texts(parts@).subrange(0, 0) =~= Seq::<Seq<char>>::empty());
        assert(entry_views(out@) =~= Seq::<Option<PrefixListEntryView>>::empty());
    }
    while i < parts.len()
        invariant
            i <= parts@.len(),
            texts(parts@) == split_on(raw@, ','),
            entry_views(out@) == nonblank(texts(parts@).subrange(0, i as int)).map_values(|e: Seq<char>| entry_fields(e)),
        decreases parts@.len() - i,
    {
        let ghost done = texts(parts@).subrange(0, i as int);
        let ghost next = texts(parts@).subrange(0, i + 1);
        proof {
            assert(next.drop_last() =~= done);
            assert(next.last() == parts@[i as int]@);
        }
        let part = text_of_range(&parts[i], 0, parts[i].len());
        assert(part@ =~= next.last());
        let entry = trim_chars(part.as_str());
        if entry.len() > 0 {
            let ghost before = entry_views(out@);
            let read = read_entry(&entry);
            out.push(read);
            proof {
                assert(entry_views(out@) =~= before.push(entry_fields(entry@)));
                assert(nonblank(next) =~= nonblank(done).push(entry@));
                assert(nonblank(next).map_values(|e: Seq<char>| entry_fields(e)) =~= nonblank(done).map_values(
                    |e: Seq<char>| entry_fields(e),
                ).push(entry_fields(entry@)));
            }
        } else {
            proof {
                assert(nonblank(next) == nonblank(done));
            }
        }
        i = i + 1;
    }
    proof {
        assert(texts(parts@).subrange(0, i as int) =~= texts(parts@));
    }
    out
}

} // verus!
