//! The renderer: a pure function from a device list and a timestamp to an
//! HTML document, held in bytes.
//!
//! The page holds exactly one list entry per device, in the order the
//! upstream answer gave them.  An entry shows the device's alias (or a
//! placeholder where it has none), its resolved online state, and its
//! last-seen time where one is present.  Upstream text is HTML-escaped
//! before it reaches the page.

use vstd::prelude::*;
use crate::device::{Device, DeviceV, OnlineState, deep_devices};
use crate::json::{ascii_of, ascii_bytes};

verus! {

/// The text shown for an online state.
pub open spec fn status_text(s: OnlineState) -> Seq<u8> {
    match s {
        OnlineState::Online => ascii_of("Online"@),
        OnlineState::Offline => ascii_of("Offline"@),
    }
}

/// What one byte of upstream text contributes to the page: the five
/// HTML-significant bytes become character references, every other byte
/// passes through.
pub open spec fn esc_byte(b: u8) -> Seq<u8> {
    if b == 38 {  // '&'
        ascii_of("&amp;"@)
    } else if b == 60 {  // '<'
        ascii_of("&lt;"@)
    } else if b == 62 {  // '>'
        ascii_of("&gt;"@)
    } else if b == 34 {  // '"'
        ascii_of("&quot;"@)
    } else if b == 39 {  // '\''
        ascii_of("&#39;"@)
    } else {
        seq![b]
    }
}

/// Upstream text as it appears in the page: each byte escaped.
pub open spec fn html_escape(s: Seq<u8>) -> Seq<u8>
    decreases s.len(),
{
    if s.len() == 0 {
        Seq::empty()
    } else {
        esc_byte(s[0]) + html_escape(s.drop_first())
    }
}

/// The markup of one device's list entry.  Upstream text is escaped; the
/// page's own markup and placeholder are not.
pub open spec fn entry_bytes(d: DeviceV) -> Seq<u8> {
    ascii_of("<li>"@) + (match d.alias {
        Some(a) => html_escape(a),
        None => ascii_of("(unnamed)"@),
    }) + ascii_of(" - "@) + status_text(d.online_state) + (match d.last_seen {
        Some(t) => ascii_of(", last seen "@) + html_escape(t),
        None => Seq::empty(),
    }) + ascii_of("</li>"@)
}

/// The markup of a device list: each entry in order, nothing between.
pub open spec fn entries_bytes(ds: Seq<DeviceV>) -> Seq<u8>
    decreases ds.len(),
{
    if ds.len() == 0 {
        Seq::empty()
    } else {
        entry_bytes(ds[0]) + entries_bytes(ds.drop_first())
    }
}

/// What the page opens with.
pub open spec fn page_header() -> Seq<u8> {
    ascii_of("<!DOCTYPE html><html><body><h1>Devices</h1><ul>"@)
}

/// What the page closes with: the timestamp it was rendered at.
pub open spec fn page_footer(now: Seq<u8>) -> Seq<u8> {
    ascii_of("</ul><p>As of "@) + now + ascii_of("</p></body></html>"@)
}

/// The whole page a device list and a timestamp render to.
pub open spec fn page_bytes(ds: Seq<DeviceV>, now: Seq<u8>) -> Seq<u8> {
    page_header() + entries_bytes(ds) + page_footer(now)
}

/// Appends a slice's bytes.
fn push_bytes(out: &mut Vec<u8>, src: &[u8])
    ensures
        final(out)@ == old(out)@ + src@,
{
    let mut i: usize = 0;
    while i < src.len()
        invariant
            i <= src@.len(),
            out@ == old(out)@ + src@.take(i as int),
        decreases src@.len() - i,
    {
        proof {
            assert((old(out)@ + src@.take(i as int)).push(src@[i as int]) =~= old(out)@
                + src@.take(i + 1));
        }
        out.push(src[i]);
        i = i + 1;
    }
    proof {
        assert(src@.take(src@.len() as int) =~= src@);
    }
}

/// Escaping one more byte extends the escaped text by that byte's markup.
proof fn lemma_escape_snoc(s: Seq<u8>, k: int)
    requires
        0 <= k < s.len(),
    ensures
        html_escape(s.take(k + 1)) == html_escape(s.take(k)) + esc_byte(s[k]),
    decreases k,
{
    if k == 0 {
        assert(s.take(0) =~= Seq::<u8>::empty());
        assert(s.take(1).drop_first() =~= Seq::<u8>::empty());
        assert(html_escape(s.take(1)) == esc_byte(s[0]) + html_escape(Seq::<u8>::empty()));
        assert(esc_byte(s[0]) + Seq::<u8>::empty() =~= esc_byte(s[0]));
        assert(Seq::<u8>::empty() + esc_byte(s[0]) =~= esc_byte(s[0]));
    } else {
        lemma_escape_snoc(s.drop_first(), k - 1);
        assert(s.take(k + 1).drop_first() =~= s.drop_first().take(k));
        assert(s.take(k).drop_first() =~= s.drop_first().take(k - 1));
        assert(s.drop_first()[k - 1] == s[k]);
        assert(esc_byte(s[0]) + (html_escape(s.drop_first().take(k - 1)) + esc_byte(s[k])) =~= (
        esc_byte(s[0]) + html_escape(s.drop_first().take(k - 1))) + esc_byte(s[k]));
    }
}

/// Appends a slice's bytes with HTML escaping.
fn push_escaped(out: &mut Vec<u8>, src: &[u8])
    ensures
        final(out)@ == old(out)@ + html_escape(src@),
{
    proof {
        reveal_strlit("&amp;");
        reveal_strlit("&lt;");
        reveal_strlit("&gt;");
        reveal_strlit("&quot;");
        reveal_strlit("&#39;");
        assert(src@.take(0) =~= Seq::<u8>::empty());
        assert(old(out)@ + html_escape(src@.take(0)) =~= old(out)@);
    }
    let mut i: usize = 0;
    while i < src.len()
        invariant
            i <= src@.len(),
            out@ == old(out)@ + html_escape(src@.take(i as int)),
        decreases src@.len() - i,
    {
        proof {
            reveal_strlit("&amp;");
            reveal_strlit("&lt;");
            reveal_strlit("&gt;");
            reveal_strlit("&quot;");
            reveal_strlit("&#39;");
            lemma_escape_snoc(src@, i as int);
        }
        let b = src[i];
        if b == 38 {
            push_bytes(out, ascii_bytes("&amp;"));
        } else if b == 60 {
            push_bytes(out, ascii_bytes("&lt;"));
        } else if b == 62 {
            push_bytes(out, ascii_bytes("&gt;"));
        } else if b == 34 {
            push_bytes(out, ascii_bytes("&quot;"));
        } else if b == 39 {
            push_bytes(out, ascii_bytes("&#39;"));
        } else {
            out.push(b);
            proof {
                assert((old(out)@ + html_escape(src@.take(i as int))).push(b) =~= old(out)@ + (
                html_escape(src@.take(i as int)) + seq![b]));
            }
        }
        proof {
            assert(out@ =~= old(out)@ + html_escape(src@.take(i + 1)));
        }
        i = i + 1;
    }
    proof {
        assert(src@.take(src@.len() as int) =~= src@);
    }
}

/// Appends one device's entry markup.
fn push_entry(out: &mut Vec<u8>, d: &Device)
    ensures
        final(out)@ == old(out)@ + entry_bytes(d.deep()),
{
    proof {
        reveal_strlit("<li>");
        reveal_strlit("(unnamed)");
        reveal_strlit(" - ");
        reveal_strlit("Online");
        reveal_strlit("Offline");
        reveal_strlit(", last seen ");
        reveal_strlit("</li>");
    }
    push_bytes(out, ascii_bytes("<li>"));
    match &d.alias {
        Some(a) => push_escaped(out, a.as_slice()),
        None => push_bytes(out, ascii_bytes("(unnamed)")),
    }
    push_bytes(out, ascii_bytes(" - "));
    match d.online_state {
        OnlineState::Online => push_bytes(out, ascii_bytes("Online")),
        OnlineState::Offline => push_bytes(out, ascii_bytes("Offline")),
    }
    match &d.last_seen {
        Some(t) => {
            push_bytes(out, ascii_bytes(", last seen "));
            push_escaped(out, t.as_slice());
        },
        None => {},
    }
    push_bytes(out, ascii_bytes("</li>"));
    proof {
        assert(out@ =~= old(out)@ + entry_bytes(d.deep()));
    }
}

/// Appending one device's entry extends the rendered list by one entry.
pub proof fn lemma_entries_snoc(ds: Seq<DeviceV>, k: int)
    requires
        0 <= k < ds.len(),
    ensures
        entries_bytes(ds.take(k + 1)) == entries_bytes(ds.take(k)) + entry_bytes(ds[k]),
    decreases k,
{
    if k == 0 {
        assert(ds.take(0) =~= Seq::<DeviceV>::empty());
        assert(ds.take(1).drop_first() =~= Seq::<DeviceV>::empty());
        assert(entries_bytes(ds.take(1)) == entry_bytes(ds[0]) + entries_bytes(
            Seq::<DeviceV>::empty(),
        ));
        assert(entry_bytes(ds[0]) + Seq::<u8>::empty() =~= entry_bytes(ds[0]));
        assert(Seq::<u8>::empty() + entry_bytes(ds[0]) =~= entry_bytes(ds[0]));
    } else {
        lemma_entries_snoc(ds.drop_first(), k - 1);
        assert(ds.take(k + 1).drop_first() =~= ds.drop_first().take(k));
        assert(ds.take(k).drop_first() =~= ds.drop_first().take(k - 1));
        assert(ds.drop_first()[k - 1] == ds[k]);
        assert(entry_bytes(ds[0]) + (entries_bytes(ds.drop_first().take(k - 1)) + entry_bytes(
            ds[k],
        )) =~= (entry_bytes(ds[0]) + entries_bytes(ds.drop_first().take(k - 1))) + entry_bytes(
            ds[k],
        ));
    }
}

/// Renders the dashboard page for a device list and a timestamp.  Pure and
/// deterministic: the page is a function of the two arguments alone.
pub fn render_page(devices: &Vec<Device>, now: &[u8]) -> (r: Vec<u8>)
    ensures
        r@ == page_bytes(deep_devices(devices@), now@),
{
    proof {
        reveal_strlit("<!DOCTYPE html><html><body><h1>Devices</h1><ul>");
        reveal_strlit("</ul><p>As of ");
        reveal_strlit("</p></body></html>");
    }
    let ghost dd = deep_devices(devices@);
    let mut out: Vec<u8> = Vec::new();
    push_bytes(&mut out, ascii_bytes("<!DOCTYPE html><html><body><h1>Devices</h1><ul>"));
    proof {
        assert(dd.take(0) =~= Seq::<DeviceV>::empty());
        assert(out@ =~= page_header() + entries_bytes(dd.take(0)));
    }
    let mut i: usize = 0;
    while i < devices.len()
        invariant
            i <= devices@.len(),
            dd == deep_devices(devices@),
            dd.len() == devices@.len(),
            out@ == page_header() + entries_bytes(dd.take(i as int)),
        decreases devices@.len() - i,
    {
        proof {
            assert(dd[i as int] == devices@[i as int].deep());
        }
        push_entry(&mut out, &devices[i]);
        proof {
            lemma_entries_snoc(dd, i as int);
            assert((page_header() + entries_bytes(dd.take(i as int))) + entry_bytes(dd[i as int])
                =~= page_header() + entries_bytes(dd.take(i + 1)));
        }
        i = i + 1;
    }
    proof {
        assert(dd.take(dd.len() as int) =~= dd);
    }
    push_bytes(&mut out, ascii_bytes("</ul><p>As of "));
    push_bytes(&mut out, now);
    push_bytes(&mut out, ascii_bytes("</p></body></html>"));
    proof {
        assert(out@ =~= page_bytes(dd, now@));
    }
    out
}

/// The entry markup of each device, one sequence element per device.
pub open spec fn entry_seq(ds: Seq<DeviceV>) -> Seq<Seq<u8>> {
    Seq::new(ds.len(), |i: int| entry_bytes(ds[i]))
}

/// The concatenation of a sequence of byte sequences, in order.
pub open spec fn concat_all(parts: Seq<Seq<u8>>) -> Seq<u8>
    decreases parts.len(),
{
    if parts.len() == 0 {
        Seq::empty()
    } else {
        parts[0] + concat_all(parts.drop_first())
    }
}

/// Law: the rendered page is the header, then exactly one entry per device in
/// the order the list gives them, then the footer — a response with N device
/// records renders to N entries, in the order received.
pub proof fn lemma_page_entries(ds: Seq<DeviceV>, now: Seq<u8>)
    ensures
        page_bytes(ds, now) == page_header() + concat_all(entry_seq(ds)) + page_footer(now),
        entry_seq(ds).len() == ds.len(),
        forall|i: int| 0 <= i < ds.len() ==> entry_seq(ds)[i] == entry_bytes(ds[i]),
{
    lemma_entries_concat(ds);
}

/// The entry list's concatenation is the device list's markup.
proof fn lemma_entries_concat(ds: Seq<DeviceV>)
    ensures
        entries_bytes(ds) == concat_all(entry_seq(ds)),
    decreases ds.len(),
{
    if ds.len() == 0 {
        assert(entry_seq(ds) =~= Seq::<Seq<u8>>::empty());
    } else {
        lemma_entries_concat(ds.drop_first());
        assert(entry_seq(ds).drop_first() =~= entry_seq(ds.drop_first()));
        assert(entry_seq(ds)[0] == entry_bytes(ds[0]));
    }
}

} // verus!
