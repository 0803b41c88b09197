//! Bundle codec: a note's on-disk container is a directory holding exactly
//! one primary rich-text document plus any number of sibling attachment
//! files, with no filename pattern excluded.
//!
//! The codec works on the directory's entries as plain (name, content)
//! pairs; reading and writing the directory itself is left to the caller.

use crate::table::assoc_index;
use crate::table::lemma_assoc_index;
use vstd::prelude::*;
use vstd::string::StrSliceExecFns;
use vstd::string::StringExecFns;
use vstd::utf8::encode_utf8;

verus! {

/// A named sibling file carried inside a note's bundle.
pub struct Attachment {
    pub filename: String,
    pub content: Vec<u8>,
}

/// A note's container: the primary rich-text payload and its attachments.
pub struct RtfdBundle {
    pub rtf_data: Vec<u8>,
    pub attachments: Vec<Attachment>,
}

/// The fixed name of the primary rich-text document inside a bundle.
pub open spec fn primary_name() -> Seq<char> {
    "TXT.rtf"@
}

/// The (name, content) views of a sequence of bundle entries.
pub open spec fn entry_views(s: Seq<Attachment>) -> Seq<(Seq<char>, Seq<u8>)> {
    Seq::new(s.len(), |i: int| (s[i].filename@, s[i].content@))
}

/// The primary document's bytes among the given directory entries, if any.
pub open spec fn decoded_primary(es: Seq<(Seq<char>, Seq<u8>)>) -> Option<Seq<u8>> {
    let i = assoc_index(es, primary_name());
    if i < 0 {
        None
    } else {
        Some(es[i].1)
    }
}

/// Every entry that is not named like the primary document, in order.
pub open spec fn decoded_attachments(es: Seq<(Seq<char>, Seq<u8>)>) -> Seq<(Seq<char>, Seq<u8>)> {
    es.filter(|e: (Seq<char>, Seq<u8>)| e.0 != primary_name())
}

/// The directory entries a bundle writes: the primary document first, then
/// every attachment under its own name.
pub open spec fn bundle_entries(rtf: Seq<u8>, atts: Seq<(Seq<char>, Seq<u8>)>) -> Seq<
    (Seq<char>, Seq<u8>),
> {
    seq![(primary_name(), rtf)] + atts
}

fn clone_bytes(v: &Vec<u8>) -> (r: Vec<u8>)
    ensures
        r@ == v@,
{
    let n = v.len();
    let mut out: Vec<u8> = Vec::new();
    let mut i: usize = 0;
    while i < n
        invariant
            n == v@.len(),
            0 <= i <= n,
            out@ == v@.take(i as int),
        decreases n - i,
    {
        out.push(v[i]);
        proof {
            assert(out@ =~= v@.take(i + 1));
        }
        i += 1;
    }
    proof {
        assert(v@.take(n as int) =~= v@);
    }
    out
}

impl RtfdBundle {
    /// Decodes a directory's entries into a bundle: the first entry named
    /// like the primary document supplies the payload, every other entry
    /// is an attachment, hidden names included. Yields nothing exactly
    /// when no entry carries the primary document's name.
    pub fn from_entries(entries: Vec<Attachment>) -> (r: Option<RtfdBundle>)
        ensures
            match r {
                Some(b) => {
                    &&& decoded_primary(entry_views(entries@)) == Some(b.rtf_data@)
                    &&& entry_views(b.attachments@) == decoded_attachments(entry_views(entries@))
                },
                None => decoded_primary(entry_views(entries@)) is None,
            },
    {
        let ghost es = entry_views(entries@);
        proof {
            lemma_assoc_index(es, primary_name());
        }
        let primary = String::from_str("TXT.rtf");
        let n = entries.len();
        let mut rtf_data: Option<Vec<u8>> = None;
        let mut attachments: Vec<Attachment> = Vec::new();
        let mut i: usize = 0;
        while i < n
            invariant
                n == entries@.len(),
                0 <= i <= n,
                es == entry_views(entries@),
                primary@ == primary_name(),
                entry_views(attachments@) == decoded_attachments(es.take(i as int)),
                match rtf_data {
                    Some(v) => {
                        &&& assoc_index(es, primary_name()) >= 0
                        &&& assoc_index(es, primary_name()) < i
                        &&& v@ == es[assoc_index(es, primary_name())].1
                    },
                    None => forall|j: int| 0 <= j < i ==> es[j].0 != primary_name(),
                },
            decreases n - i,
        {
            let entry = &entries[i];
            proof {
                assert(es[i as int] == (entry.filename@, entry.content@));
            }
            if entry.filename == primary {
                if rtf_data.is_none() {
                    proof {
                        lemma_assoc_index(es, primary_name());
                        assert(assoc_index(es, primary_name()) == i as int);
                    }
                    rtf_data = Some(clone_bytes(&entry.content));
                }
            } else {
                attachments.push(
                    Attachment {
                        filename: entry.filename.clone(),
                        content: clone_bytes(&entry.content),
                    },
                );
            }
            proof {
                let pre = es.take(i as int);
                let cur = es.take(i + 1);
                assert(cur.drop_last() =~= pre);
                assert(cur.last() == es[i as int]);
                reveal_with_fuel(Seq::filter, 2);
                assert(entry_views(attachments@) =~~= decoded_attachments(cur));
            }
            i += 1;
        }
        proof {
            assert(es.take(n as int) =~= es);
        }
        match rtf_data {
            Some(v) => Some(RtfdBundle { rtf_data: v, attachments }),
            None => {
                proof {
                    lemma_assoc_index(es, primary_name());
                }
                None
            },
        }
    }

    /// Encodes the bundle as directory entries: the primary document
    /// first, then every attachment, each under its own name.
    pub fn to_entries(&self) -> (r: Vec<Attachment>)
        ensures
            entry_views(r@) == bundle_entries(self.rtf_data@, entry_views(self.attachments@)),
    {
        let mut out: Vec<Attachment> = Vec::new();
        out.push(
            Attachment { filename: String::from_str("TXT.rtf"), content: clone_bytes(
                &self.rtf_data,
            ) },
        );
        let n = self.attachments.len();
        let mut i: usize = 0;
        while i < n
            invariant
                n == self.attachments@.len(),
                0 <= i <= n,
                entry_views(out@) =~~= bundle_entries(
                    self.rtf_data@,
                    entry_views(self.attachments@.take(i as int)),
                ),
            decreases n - i,
        {
            let ghost prev = out@;
            let a = &self.attachments[i];
            out.push(Attachment { filename: a.filename.clone(), content: clone_bytes(&a.content) });
            proof {
                let k = i as int;
                assert(entry_views(prev).len() == prev.len());
                assert(entry_views(self.attachments@.take(k)).len() == k);
                assert(entry_views(out@)[1 + k] == entry_views(self.attachments@.take(k + 1))[k]);
                let lhs = entry_views(out@);
                let rhs = bundle_entries(
                    self.rtf_data@,
                    entry_views(self.attachments@.take(k + 1)),
                );
                let old_rhs = bundle_entries(
                    self.rtf_data@,
                    entry_views(self.attachments@.take(k)),
                );
                assert forall|m: int| 0 <= m < lhs.len() implies lhs[m] == rhs[m] by {
                    if m <= k {
                        assert(lhs[m] == entry_views(prev)[m]);
                        assert(entry_views(prev)[m] == old_rhs[m]);
                        if m > 0 {
                            assert(old_rhs[m] == entry_views(self.attachments@.take(k))[m - 1]);
                            assert(self.attachments@.take(k)[m - 1] == self.attachments@.take(
                                k + 1,
                            )[m - 1]);
                            assert(rhs[m] == entry_views(self.attachments@.take(k + 1))[m - 1]);
                        }
                    }
                }
                assert(lhs =~~= rhs);
            }
            i += 1;
        }
        proof {
            assert(self.attachments@.take(n as int) =~= self.attachments@);
            assert(entry_views(out@) =~~= bundle_entries(
                self.rtf_data@,
                entry_views(self.attachments@),
            ));
        }
        out
    }

    /// A fresh single-note bundle wrapping `text` in the fixed rich-text
    /// preamble, with no attachments.
    pub fn create_minimal(text: &str) -> (r: RtfdBundle)
        ensures
            r.rtf_data@ == encode_utf8(minimal_rtf_text(text@)),
            r.attachments@ == Seq::<Attachment>::empty(),
    {
        let mut s = String::from_str(
            "{\\rtf1\\ansi\\ansicpg1252\\cocoartf2820\n{\\fonttbl\\f0\\fswiss\\fcharset0 Helvetica;}\n{\\colortbl;\\red255\\green255\\blue255;}\n\\pard\\tx560\\tx1120\\tx1680\\tx2240\\tx2800\\tx3360\\tx3920\\tx4480\\tx5040\\tx5600\\tx6160\\tx6720\\pardirnatural\\partightenfactor0\n\\f0\\fs24 \\cf0 ",
        );
        s.append(text);
        s.append("}");
        let rtf_data = s.as_str().as_bytes_vec();
        let r = RtfdBundle { rtf_data, attachments: Vec::new() };
        proof {
            assert(r.attachments@ =~= Seq::<Attachment>::empty());
        }
        r
    }
}

/// The full rich-text document `create_minimal` builds around `text`.
pub open spec fn minimal_rtf_text(text: Seq<char>) -> Seq<char> {
    "{\\rtf1\\ansi\\ansicpg1252\\cocoartf2820\n{\\fonttbl\\f0\\fswiss\\fcharset0 Helvetica;}\n{\\colortbl;\\red255\\green255\\blue255;}\n\\pard\\tx560\\tx1120\\tx1680\\tx2240\\tx2800\\tx3360\\tx3920\\tx4480\\tx5040\\tx5600\\tx6160\\tx6720\\pardirnatural\\partightenfactor0\n\\f0\\fs24 \\cf0 "@
        + text + "}"@
}

/// Law (bundle round trip): decoding the entries a bundle writes yields
/// the same primary document bytes and the same attachments, names and
/// contents alike, provided no attachment carries the primary document's
/// own name (such an attachment would be folded into the primary slot by
/// any reader of the directory).
pub proof fn lemma_bundle_round_trip(rtf: Seq<u8>, atts: Seq<(Seq<char>, Seq<u8>)>)
    requires
        forall|i: int| 0 <= i < atts.len() ==> atts[i].0 != primary_name(),
    ensures
        decoded_primary(bundle_entries(rtf, atts)) == Some(rtf),
        decoded_attachments(bundle_entries(rtf, atts)) == atts,
{
    let es = bundle_entries(rtf, atts);
    assert(es[0] == (primary_name(), rtf));
    assert(assoc_index(es, primary_name()) == 0);
    let pred = |e: (Seq<char>, Seq<u8>)| e.0 != primary_name();
    Seq::filter_distributes_over_add(seq![(primary_name(), rtf)], atts, pred);
    reveal_with_fuel(Seq::filter, 2);
    assert(seq![(primary_name(), rtf)].filter(pred) =~= Seq::<(Seq<char>, Seq<u8>)>::empty());
    lemma_filter_all_kept(atts);
    assert(decoded_attachments(es) =~~= atts);
}

proof fn lemma_filter_all_kept(atts: Seq<(Seq<char>, Seq<u8>)>)
    requires
        forall|i: int| 0 <= i < atts.len() ==> atts[i].0 != primary_name(),
    ensures
        atts.filter(|e: (Seq<char>, Seq<u8>)| e.0 != primary_name()) == atts,
    decreases atts.len(),
{
    reveal_with_fuel(Seq::filter, 2);
    if atts.len() > 0 {
        lemma_filter_all_kept(atts.drop_last());
        assert(atts.drop_last().push(atts.last()) =~= atts);
    }
}

} // verus!
