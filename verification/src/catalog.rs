//! The first-party plugins that the plugin browser always lists, and where in
//! the scanned catalog each of them is placed.
//!
//! Finding a bundle on disk and canonicalising paths happen outside; the
//! functions here take what was found (`found`) and the canonical path of
//! every catalog entry (`canonical`, one per entry) as plain values.
use vstd::prelude::*;
use crate::ipc::{DescriptorView, PluginDescriptor};
use crate::text::owned;
use crate::vecs::{first_where, lemma_first_where};

verus! {

pub const COTT_SYNTH_UID: &'static str = "436F747453796E746856535433434521";
pub const COTT_SYNTH_NAME: &'static str = "CottSynth";
pub const COTT_SYNTH_VENDOR: &'static str = "Cottage";

pub const COTT_FILTER_UID: &'static str = "436F747446696C745653543343452121";
pub const COTT_FILTER_NAME: &'static str = "CottFilter";
pub const COTT_FILTER_VENDOR: &'static str = "Cottage";

pub const COTT_BASS_UID: &'static str = "436F7474426173735653543343452121";
pub const COTT_BASS_NAME: &'static str = "CottBass";
pub const COTT_BASS_VENDOR: &'static str = "Cottage";

pub const COTT_KIT_UID: &'static str = "436F74744B6974565354334345212121";
pub const COTT_KIT_NAME: &'static str = "CottKit";
pub const COTT_KIT_VENDOR: &'static str = "Cottage";

pub const COTT_TAPE_UID: &'static str = "436F7474546170655653543343452121";
pub const COTT_TAPE_NAME: &'static str = "CottTape";
pub const COTT_TAPE_VENDOR: &'static str = "Cottage";

pub const COTT_VINYL_UID: &'static str = "436F747456696E796C56535433434521";
pub const COTT_VINYL_NAME: &'static str = "CottVinyl";
pub const COTT_VINYL_VENDOR: &'static str = "Cottage";

/// Names of the other first-party plugins that the placement rules refer to.
pub const COTT_PLUCK_NAME: &'static str = "CottPluck";
pub const COTT_HAZE_NAME: &'static str = "CottHaze";
pub const COTT_WHISTLE_NAME: &'static str = "CottWhistle";

/// Paths listed for a bundle that was not found.
pub const COTT_SYNTH_STUB: &'static str = "target/bundled/cott-synth.vst3 (missing — run cargo bundle-synth)";
pub const COTT_FILTER_STUB: &'static str = "target/bundled/cott-filter.vst3 (missing — run cargo bundle-filter)";
pub const COTT_BASS_STUB: &'static str = "target/bundled/cott-bass.vst3 (missing — run cargo bundle-bass)";
pub const COTT_KIT_STUB: &'static str = "target/bundled/cott-kit.vst3 (missing — run cargo bundle-kit)";
pub const COTT_TAPE_STUB: &'static str = "target/bundled/cott-tape.vst3 (missing — run cargo bundle-tape)";
pub const COTT_VINYL_STUB: &'static str = "target/bundled/cott-vinyl.vst3 (missing — run cargo bundle-vinyl)";

/// The catalog as plain values.
pub open spec fn catalog_view(s: Seq<PluginDescriptor>) -> Seq<DescriptorView> {
    s.map_values(|p: PluginDescriptor| p@)
}

/// Texts of a list of strings.
pub open spec fn texts(s: Seq<String>) -> Seq<Seq<char>> {
    s.map_values(|t: String| t@)
}

/// Text of an optional string.
pub open spec fn opt_text(o: Option<String>) -> Option<Seq<char>> {
    match o {
        Some(t) => Some(t@),
        None => None,
    }
}

/// A first-party descriptor: VST3, an instrument or else an effect, with an
/// editor.
pub open spec fn builtin_view(uid: Seq<char>, name: Seq<char>, vendor: Seq<char>, path: Seq<char>, instrument: bool) -> DescriptorView {
    (uid, name, vendor, path, instrument, !instrument, true)
}

/// Whether an entry stays when a built-in is injected: it is neither the
/// built-in (by uid or by name) nor, when the bundle was found, an entry
/// whose canonical path is the bundle's.
pub open spec fn stays(p: DescriptorView, canonical: Seq<char>, uid: Seq<char>, name: Seq<char>, found: Option<Seq<char>>) -> bool {
    &&& p.0 != uid
    &&& p.1 != name
    &&& (found matches Some(q) ==> canonical != q)
}

/// The entries that stay, in order; entry `i` has canonical path `c[i]`.
pub open spec fn kept(s: Seq<DescriptorView>, c: Seq<Seq<char>>, uid: Seq<char>, name: Seq<char>, found: Option<Seq<char>>) -> Seq<DescriptorView>
    decreases s.len(),
{
    if s.len() == 0 {
        Seq::empty()
    } else {
        let rest = kept(s.drop_last(), c, uid, name, found);
        if stays(s.last(), c[s.len() - 1], uid, name, found) {
            rest.push(s.last())
        } else {
            rest
        }
    }
}

/// Whether an entry carries the given name.
pub open spec fn named(n: Seq<char>) -> spec_fn(DescriptorView) -> bool {
    |p: DescriptorView| p.1 == n
}

/// Right after the first entry named by the first of `anchors` that occurs
/// in `s`; `fallback` when none occurs.
pub open spec fn anchored(s: Seq<DescriptorView>, anchors: Seq<Seq<char>>, fallback: int) -> int
    decreases anchors.len(),
{
    if anchors.len() == 0 {
        fallback
    } else if first_where(s, named(anchors[0])) >= 0 {
        first_where(s, named(anchors[0])) + 1
    } else {
        anchored(s, anchors.drop_first(), fallback)
    }
}

/// The catalog after injecting `d`: every entry that stays, in order, with
/// `d` placed after the first anchor found, else at the front or the end.
pub open spec fn injected(
    s: Seq<DescriptorView>,
    c: Seq<Seq<char>>,
    found: Option<Seq<char>>,
    anchors: Seq<Seq<char>>,
    at_end: bool,
    d: DescriptorView,
) -> Seq<DescriptorView> {
    let k = kept(s, c, d.0, d.1, found);
    k.insert(anchored(k, anchors, if at_end { k.len() as int } else { 0 }), d)
}

proof fn lemma_kept_len(s: Seq<DescriptorView>, c: Seq<Seq<char>>, uid: Seq<char>, name: Seq<char>, found: Option<Seq<char>>)
    ensures
        kept(s, c, uid, name, found).len() <= s.len(),
    decreases s.len(),
{
    if s.len() > 0 {
        lemma_kept_len(s.drop_last(), c, uid, name, found);
    }
}

proof fn lemma_anchored(s: Seq<DescriptorView>, anchors: Seq<Seq<char>>, fallback: int)
    requires
        0 <= fallback <= s.len(),
    ensures
        0 <= anchored(s, anchors, fallback) <= s.len(),
    decreases anchors.len(),
{
    if anchors.len() > 0 {
        lemma_first_where(s, named(anchors[0]));
        lemma_anchored(s, anchors.drop_first(), fallback);
    }
}

proof fn lemma_kept_stays(s: Seq<DescriptorView>, c: Seq<Seq<char>>, uid: Seq<char>, name: Seq<char>, found: Option<Seq<char>>)
    ensures
        forall|i: int| 0 <= i < kept(s, c, uid, name, found).len() ==>
            (#[trigger] kept(s, c, uid, name, found)[i]).0 != uid && kept(s, c, uid, name, found)[i].1 != name,
    decreases s.len(),
{
    if s.len() > 0 {
        lemma_kept_stays(s.drop_last(), c, uid, name, found);
        let rest = kept(s.drop_last(), c, uid, name, found);
        let k = kept(s, c, uid, name, found);
        assert forall|i: int| 0 <= i < k.len() implies (#[trigger] k[i]).0 != uid && k[i].1 != name by {
            if i < rest.len() {
                assert(k[i] == rest[i]);
            }
        }
    }
}

/// An injected built-in is listed exactly once, at the place its anchors
/// give: no other entry carries its uid or its name.
pub proof fn law_builtin_listed_once(
    s: Seq<DescriptorView>,
    c: Seq<Seq<char>>,
    found: Option<Seq<char>>,
    anchors: Seq<Seq<char>>,
    at_end: bool,
    d: DescriptorView,
)
    ensures
        ({
            let k = kept(s, c, d.0, d.1, found);
            let at = anchored(k, anchors, if at_end { k.len() as int } else { 0 });
            let r = injected(s, c, found, anchors, at_end, d);
            &&& 0 <= at < r.len()
            &&& r[at] == d
            &&& r.len() == k.len() + 1
            &&& forall|i: int| 0 <= i < r.len() && i != at ==> (#[trigger] r[i]).0 != d.0 && r[i].1 != d.1
        }),
{
    let k = kept(s, c, d.0, d.1, found);
    lemma_kept_stays(s, c, d.0, d.1, found);
    lemma_anchored(k, anchors, if at_end { k.len() as int } else { 0 });
    let at = anchored(k, anchors, if at_end { k.len() as int } else { 0 });
    let r = injected(s, c, found, anchors, at_end, d);
    assert forall|i: int| 0 <= i < r.len() && i != at implies (#[trigger] r[i]).0 != d.0 && r[i].1 != d.1 by {
        if i < at {
            assert(r[i] == k[i]);
        } else {
            assert(r[i] == k[i - 1]);
        }
    }
}

proof fn lemma_kept_concat(a: Seq<DescriptorView>, b: Seq<DescriptorView>, c: Seq<Seq<char>>, uid: Seq<char>,
    name: Seq<char>)
    ensures
        kept(a + b, c, uid, name, None) == kept(a, c, uid, name, None) + kept(b, c, uid, name, None),
    decreases b.len(),
{
    if b.len() == 0 {
        assert(a + b =~= a);
        assert(kept(a, c, uid, name, None) + Seq::<DescriptorView>::empty() =~= kept(a, c, uid, name, None));
    } else {
        lemma_kept_concat(a, b.drop_last(), c, uid, name);
        assert((a + b).drop_last() =~= a + b.drop_last());
        assert((a + b).last() == b.last());
        let ka = kept(a, c, uid, name, None);
        let kb = kept(b.drop_last(), c, uid, name, None);
        assert((ka + kb).push(b.last()) =~= ka + kb.push(b.last()));
    }
}

proof fn lemma_kept_all_stay(k: Seq<DescriptorView>, c: Seq<Seq<char>>, uid: Seq<char>, name: Seq<char>)
    requires
        forall|i: int| 0 <= i < k.len() ==> (#[trigger] k[i]).0 != uid && k[i].1 != name,
    ensures
        kept(k, c, uid, name, None) == k,
    decreases k.len(),
{
    if k.len() > 0 {
        lemma_kept_all_stay(k.drop_last(), c, uid, name);
        assert(k.drop_last().push(k.last()) =~= k);
    }
}

/// Injecting a built-in that was not found twice lists the catalog as
/// injecting it once does.
pub proof fn law_injection_is_idempotent(
    s: Seq<DescriptorView>,
    c: Seq<Seq<char>>,
    c2: Seq<Seq<char>>,
    anchors: Seq<Seq<char>>,
    at_end: bool,
    d: DescriptorView,
)
    ensures
        injected(injected(s, c, None, anchors, at_end, d), c2, None, anchors, at_end, d)
            == injected(s, c, None, anchors, at_end, d),
{
    let k = kept(s, c, d.0, d.1, None);
    lemma_kept_stays(s, c, d.0, d.1, None);
    lemma_anchored(k, anchors, if at_end { k.len() as int } else { 0 });
    let at = anchored(k, anchors, if at_end { k.len() as int } else { 0 });
    let r = k.insert(at, d);
    let front = k.subrange(0, at);
    let back = k.subrange(at, k.len() as int);
    assert(r =~= front + seq![d] + back);
    lemma_kept_concat(front + seq![d], back, c2, d.0, d.1);
    lemma_kept_concat(front, seq![d], c2, d.0, d.1);
    assert(seq![d].drop_last() =~= Seq::<DescriptorView>::empty());
    assert(kept(Seq::<DescriptorView>::empty(), c2, d.0, d.1, None) =~= Seq::<DescriptorView>::empty());
    assert(seq![d].last() == d);
    assert(!stays(d, c2[0], d.0, d.1, None));
    assert(kept(seq![d], c2, d.0, d.1, None) =~= Seq::<DescriptorView>::empty());
    lemma_kept_all_stay(front, c2, d.0, d.1);
    lemma_kept_all_stay(back, c2, d.0, d.1);
    assert(kept(r, c2, d.0, d.1, None) =~= k);
}

/// Drops every entry that does not stay.
fn drop_entries(
    catalog: &mut Vec<PluginDescriptor>,
    uid: &String,
    name: &String,
    found: &Option<String>,
    canonical: &Vec<String>,
)
    requires
        found is Some ==> canonical.len() == old(catalog).len(),
    ensures
        catalog_view(final(catalog)@) == kept(catalog_view(old(catalog)@), texts(canonical@), uid@, name@, opt_text(*found)),
{
    let ghost orig = catalog_view(catalog@);
    let ghost cs = texts(canonical@);
    let ghost fv = opt_text(*found);
    let n = catalog.len();
    let mut j: usize = 0;
    let mut k: usize = 0;
    proof {
        assert(orig.take(0) =~= Seq::<DescriptorView>::empty());
        assert(orig.skip(0) =~= orig);
        assert(catalog_view(catalog@) =~= kept(orig.take(0), cs, uid@, name@, fv) + orig.skip(0));
    }
    while k < n
        invariant
            n == orig.len(),
            k <= n,
            found is Some ==> canonical.len() == n,
            cs == texts(canonical@),
            fv == opt_text(*found),
            j == kept(orig.take(k as int), cs, uid@, name@, fv).len(),
            catalog_view(catalog@) == kept(orig.take(k as int), cs, uid@, name@, fv) + orig.skip(k as int),
        decreases n - k,
    {
        let ghost before = kept(orig.take(k as int), cs, uid@, name@, fv);
        proof {
            lemma_kept_len(orig.take(k as int), cs, uid@, name@, fv);
            assert(catalog@.len() == catalog_view(catalog@).len());
            assert(orig.take(k as int + 1).drop_last() =~= orig.take(k as int));
            assert(orig.take(k as int + 1).last() == orig[k as int]);
            assert(catalog_view(catalog@)[j as int] == orig[k as int]);
            assert(orig.skip(k as int) =~= seq![orig[k as int]] + orig.skip(k as int + 1));
        }
        let same_uid = catalog[j].uid == *uid;
        let same_name = catalog[j].name == *name;
        let same_path = match found {
            Some(q) => canonical[k] == *q,
            None => false,
        };
        proof {
            assert(catalog@[j as int]@ == orig[k as int]);
            if found is Some {
                assert(cs[k as int] == canonical@[k as int]@);
            }
        }
        if !same_uid && !same_name && !same_path {
            proof {
                assert(stays(orig[k as int], cs[k as int], uid@, name@, fv));
                assert(kept(orig.take(k as int + 1), cs, uid@, name@, fv) == before.push(orig[k as int]));
                assert(catalog_view(catalog@) =~= before.push(orig[k as int]) + orig.skip(k as int + 1));
            }
            j = j + 1;
        } else {
            let ghost pre = catalog@;
            catalog.remove(j);
            proof {
                assert(!stays(orig[k as int], cs[k as int], uid@, name@, fv));
                assert(kept(orig.take(k as int + 1), cs, uid@, name@, fv) == before);
                assert(catalog@ =~= pre.remove(j as int));
                assert(catalog_view(catalog@) =~= catalog_view(pre).remove(j as int));
                assert(catalog_view(pre) =~= before + seq![orig[k as int]] + orig.skip(k as int + 1));
                assert(catalog_view(catalog@) =~= before + orig.skip(k as int + 1));
            }
        }
        k = k + 1;
    }
    proof {
        assert(orig.take(n as int) =~= orig);
        assert(orig.skip(n as int) =~= Seq::<DescriptorView>::empty());
        assert(catalog_view(catalog@) =~= kept(orig, cs, uid@, name@, fv));
    }
}

/// Position of the first entry named `name`.
fn position_named(catalog: &Vec<PluginDescriptor>, name: &String) -> (r: Option<usize>)
    ensures
        r is None <==> first_where(catalog_view(catalog@), named(name@)) == -1,
        r matches Some(i) ==> i as int == first_where(catalog_view(catalog@), named(name@)) && i < catalog.len(),
{
    let ghost s = catalog_view(catalog@);
    proof {
        lemma_first_where(s, named(name@));
    }
    let mut i: usize = 0;
    while i < catalog.len()
        invariant
            i <= catalog.len(),
            s == catalog_view(catalog@),
            -1 <= first_where(s, named(name@)) < s.len(),
            first_where(s, named(name@)) >= 0 ==> named(name@)(s[first_where(s, named(name@))]),
            forall|j: int| 0 <= j < first_where(s, named(name@)) ==> !named(name@)(#[trigger] s[j]),
            first_where(s, named(name@)) == -1 ==> forall|j: int| 0 <= j < s.len() ==> !named(name@)(#[trigger] s[j]),
            forall|j: int| 0 <= j < i ==> !named(name@)(#[trigger] s[j]),
        decreases catalog.len() - i,
    {
        if catalog[i].name == *name {
            proof {
                assert(named(name@)(s[i as int]));
                let k = first_where(s, named(name@));
                if k >= 0 && k < i {
                    assert(named(name@)(s[k]));
                }
            }
            return Some(i);
        }
        proof {
            assert(!named(name@)(s[i as int]));
        }
        i = i + 1;
    }
    proof {
        let k = first_where(s, named(name@));
        if k >= 0 {
            assert(named(name@)(s[k]));
        }
    }
    None
}

/// Where a built-in goes among `catalog`.
fn placement(catalog: &Vec<PluginDescriptor>, anchors: &Vec<String>, at_end: bool) -> (r: usize)
    ensures
        r as int == anchored(
            catalog_view(catalog@),
            texts(anchors@),
            if at_end { catalog.len() as int } else { 0 },
        ),
{
    let ghost s = catalog_view(catalog@);
    let ghost a = texts(anchors@);
    let ghost fb: int = if at_end { catalog.len() as int } else { 0 };
    let mut i: usize = 0;
    proof {
        assert(a.skip(0) =~= a);
    }
    while i < anchors.len()
        invariant
            i <= anchors.len(),
            s == catalog_view(catalog@),
            a == texts(anchors@),
            fb == if at_end { catalog.len() as int } else { 0 },
            anchored(s, a, fb) == anchored(s, a.skip(i as int), fb),
        decreases anchors.len() - i,
    {
        proof {
            assert(a.skip(i as int)[0] == anchors@[i as int]@);
            assert(a.skip(i as int).drop_first() =~= a.skip(i as int + 1));
        }
        match position_named(catalog, &anchors[i]) {
            Some(p) => {
                return p + 1;
            },
            None => {},
        }
        i = i + 1;
    }
    proof {
        assert(a.skip(i as int) =~= Seq::<Seq<char>>::empty());
    }
    if at_end {
        catalog.len()
    } else {
        0
    }
}

/// Removes the entries that `desc` replaces and inserts `desc` at its place.
fn inject(
    catalog: &mut Vec<PluginDescriptor>,
    desc: PluginDescriptor,
    found: &Option<String>,
    canonical: &Vec<String>,
    anchors: &Vec<String>,
    at_end: bool,
)
    requires
        found is Some ==> canonical.len() == old(catalog).len(),
    ensures
        catalog_view(final(catalog)@) == injected(
            catalog_view(old(catalog)@),
            texts(canonical@),
            opt_text(*found),
            texts(anchors@),
            at_end,
            desc@,
        ),
{
    drop_entries(catalog, &desc.uid, &desc.name, found, canonical);
    let at = placement(catalog, anchors, at_end);
    proof {
        lemma_anchored(
            catalog_view(catalog@),
            texts(anchors@),
            if at_end { catalog.len() as int } else { 0 },
        );
    }
    let ghost pre = catalog@;
    let ghost d = desc@;
    catalog.insert(at, desc);
    proof {
        assert(catalog_view(catalog@) =~= catalog_view(pre).insert(at as int, d));
    }
}

/// The descriptor of CottSynth at `path`.
pub fn cott_synth_descriptor(path: String) -> (d: PluginDescriptor)
    ensures
        d@ == builtin_view(COTT_SYNTH_UID@, COTT_SYNTH_NAME@, COTT_SYNTH_VENDOR@, path@, true),
{
    PluginDescriptor {
        uid: owned(COTT_SYNTH_UID),
        name: owned(COTT_SYNTH_NAME),
        vendor: owned(COTT_SYNTH_VENDOR),
        path,
        is_instrument: true,
        is_effect: false,
        has_editor: true,
    }
}

/// The descriptor of CottFilter at `path`.
pub fn cott_filter_descriptor(path: String) -> (d: PluginDescriptor)
    ensures
        d@ == builtin_view(COTT_FILTER_UID@, COTT_FILTER_NAME@, COTT_FILTER_VENDOR@, path@, false),
{
    PluginDescriptor {
        uid: owned(COTT_FILTER_UID),
        name: owned(COTT_FILTER_NAME),
        vendor: owned(COTT_FILTER_VENDOR),
        path,
        is_instrument: false,
        is_effect: true,
        has_editor: true,
    }
}

/// The descriptor of CottBass at `path`.
pub fn cott_bass_descriptor(path: String) -> (d: PluginDescriptor)
    ensures
        d@ == builtin_view(COTT_BASS_UID@, COTT_BASS_NAME@, COTT_BASS_VENDOR@, path@, true),
{
    PluginDescriptor {
        uid: owned(COTT_BASS_UID),
        name: owned(COTT_BASS_NAME),
        vendor: owned(COTT_BASS_VENDOR),
        path,
        is_instrument: true,
        is_effect: false,
        has_editor: true,
    }
}

/// The descriptor of CottKit at `path`.
pub fn cott_kit_descriptor(path: String) -> (d: PluginDescriptor)
    ensures
        d@ == builtin_view(COTT_KIT_UID@, COTT_KIT_NAME@, COTT_KIT_VENDOR@, path@, true),
{
    PluginDescriptor {
        uid: owned(COTT_KIT_UID),
        name: owned(COTT_KIT_NAME),
        vendor: owned(COTT_KIT_VENDOR),
        path,
        is_instrument: true,
        is_effect: false,
        has_editor: true,
    }
}

/// The descriptor of CottTape at `path`.
pub fn cott_tape_descriptor(path: String) -> (d: PluginDescriptor)
    ensures
        d@ == builtin_view(COTT_TAPE_UID@, COTT_TAPE_NAME@, COTT_TAPE_VENDOR@, path@, false),
{
    PluginDescriptor {
        uid: owned(COTT_TAPE_UID),
        name: owned(COTT_TAPE_NAME),
        vendor: owned(COTT_TAPE_VENDOR),
        path,
        is_instrument: false,
        is_effect: true,
        has_editor: true,
    }
}

/// The descriptor of CottVinyl at `path`.
pub fn cott_vinyl_descriptor(path: String) -> (d: PluginDescriptor)
    ensures
        d@ == builtin_view(COTT_VINYL_UID@, COTT_VINYL_NAME@, COTT_VINYL_VENDOR@, path@, false),
{
    PluginDescriptor {
        uid: owned(COTT_VINYL_UID),
        name: owned(COTT_VINYL_NAME),
        vendor: owned(COTT_VINYL_VENDOR),
        path,
        is_instrument: false,
        is_effect: true,
        has_editor: true,
    }
}

/// The path a built-in is listed with: where it was found, else its stub.
pub open spec fn listed_path(found: Option<Seq<char>>, stub: Seq<char>) -> Seq<char> {
    match found {
        Some(p) => p,
        None => stub,
    }
}

fn listed(found: &Option<String>, stub: &str) -> (r: String)
    ensures
        r@ == listed_path(opt_text(*found), stub@),
{
    match found {
        Some(p) => p.clone(),
        None => owned(stub),
    }
}

fn names(a: &str, b: &str) -> (v: Vec<String>)
    ensures
        texts(v@) == seq![a@, b@],
{
    let mut v = Vec::new();
    v.push(owned(a));
    v.push(owned(b));
    proof {
        assert(texts(v@) =~= seq![a@, b@]);
    }
    v
}

/// Puts CottSynth first in the catalog.
pub fn inject_cott_synth(catalog: &mut Vec<PluginDescriptor>, found: Option<String>, canonical: &Vec<String>)
    requires
        found is Some ==> canonical.len() == old(catalog).len(),
    ensures
        catalog_view(final(catalog)@) == injected(
            catalog_view(old(catalog)@),
            texts(canonical@),
            opt_text(found),
            Seq::empty(),
            false,
            builtin_view(COTT_SYNTH_UID@, COTT_SYNTH_NAME@, COTT_SYNTH_VENDOR@, listed_path(opt_text(found), COTT_SYNTH_STUB@), true),
        ),
{
    let desc = cott_synth_descriptor(listed(&found, COTT_SYNTH_STUB));
    let anchors: Vec<String> = Vec::new();
    proof {
        assert(texts(anchors@) =~= Seq::<Seq<char>>::empty());
    }
    inject(catalog, desc, &found, canonical, &anchors, false);
}

/// Puts CottFilter right after CottSynth, else first.
pub fn inject_cott_filter(catalog: &mut Vec<PluginDescriptor>, found: Option<String>, canonical: &Vec<String>)
    requires
        found is Some ==> canonical.len() == old(catalog).len(),
    ensures
        catalog_view(final(catalog)@) == injected(
            catalog_view(old(catalog)@),
            texts(canonical@),
            opt_text(found),
            seq![COTT_SYNTH_NAME@],
            false,
            builtin_view(COTT_FILTER_UID@, COTT_FILTER_NAME@, COTT_FILTER_VENDOR@, listed_path(opt_text(found), COTT_FILTER_STUB@), false),
        ),
{
    let desc = cott_filter_descriptor(listed(&found, COTT_FILTER_STUB));
    let mut anchors: Vec<String> = Vec::new();
    anchors.push(owned(COTT_SYNTH_NAME));
    proof {
        assert(texts(anchors@) =~= seq![COTT_SYNTH_NAME@]);
    }
    inject(catalog, desc, &found, canonical, &anchors, false);
}

/// Puts CottBass right after CottTape, else after CottVinyl, else last.
pub fn inject_cott_bass(catalog: &mut Vec<PluginDescriptor>, found: Option<String>, canonical: &Vec<String>)
    requires
        found is Some ==> canonical.len() == old(catalog).len(),
    ensures
        catalog_view(final(catalog)@) == injected(
            catalog_view(old(catalog)@),
            texts(canonical@),
            opt_text(found),
            seq![COTT_TAPE_NAME@, COTT_VINYL_NAME@],
            true,
            builtin_view(COTT_BASS_UID@, COTT_BASS_NAME@, COTT_BASS_VENDOR@, listed_path(opt_text(found), COTT_BASS_STUB@), true),
        ),
{
    let desc = cott_bass_descriptor(listed(&found, COTT_BASS_STUB));
    let anchors = names(COTT_TAPE_NAME, COTT_VINYL_NAME);
    inject(catalog, desc, &found, canonical, &anchors, true);
}

/// Puts CottKit right after CottPluck, else after CottBass, else last.
pub fn inject_cott_kit(catalog: &mut Vec<PluginDescriptor>, found: Option<String>, canonical: &Vec<String>)
    requires
        found is Some ==> canonical.len() == old(catalog).len(),
    ensures
        catalog_view(final(catalog)@) == injected(
            catalog_view(old(catalog)@),
            texts(canonical@),
            opt_text(found),
            seq![COTT_PLUCK_NAME@, COTT_BASS_NAME@],
            true,
            builtin_view(COTT_KIT_UID@, COTT_KIT_NAME@, COTT_KIT_VENDOR@, listed_path(opt_text(found), COTT_KIT_STUB@), true),
        ),
{
    let desc = cott_kit_descriptor(listed(&found, COTT_KIT_STUB));
    let anchors = names(COTT_PLUCK_NAME, COTT_BASS_NAME);
    inject(catalog, desc, &found, canonical, &anchors, true);
}

/// Puts CottTape right after CottVinyl, else after CottHaze, else last.
pub fn inject_cott_tape(catalog: &mut Vec<PluginDescriptor>, found: Option<String>, canonical: &Vec<String>)
    requires
        found is Some ==> canonical.len() == old(catalog).len(),
    ensures
        catalog_view(final(catalog)@) == injected(
            catalog_view(old(catalog)@),
            texts(canonical@),
            opt_text(found),
            seq![COTT_VINYL_NAME@, COTT_HAZE_NAME@],
            true,
            builtin_view(COTT_TAPE_UID@, COTT_TAPE_NAME@, COTT_TAPE_VENDOR@, listed_path(opt_text(found), COTT_TAPE_STUB@), false),
        ),
{
    let desc = cott_tape_descriptor(listed(&found, COTT_TAPE_STUB));
    let anchors = names(COTT_VINYL_NAME, COTT_HAZE_NAME);
    inject(catalog, desc, &found, canonical, &anchors, true);
}

/// Puts CottVinyl right after CottHaze, else after CottWhistle, CottFilter
/// or CottSynth (the first of these present), else first.
pub fn inject_cott_vinyl(catalog: &mut Vec<PluginDescriptor>, found: Option<String>, canonical: &Vec<String>)
    requires
        found is Some ==> canonical.len() == old(catalog).len(),
    ensures
        catalog_view(final(catalog)@) == injected(
            catalog_view(old(catalog)@),
            texts(canonical@),
            opt_text(found),
            seq![COTT_HAZE_NAME@, COTT_WHISTLE_NAME@, COTT_FILTER_NAME@, COTT_SYNTH_NAME@],
            false,
            builtin_view(COTT_VINYL_UID@, COTT_VINYL_NAME@, COTT_VINYL_VENDOR@, listed_path(opt_text(found), COTT_VINYL_STUB@), false),
        ),
{
    let desc = cott_vinyl_descriptor(listed(&found, COTT_VINYL_STUB));
    let mut anchors: Vec<String> = Vec::new();
    anchors.push(owned(COTT_HAZE_NAME));
    anchors.push(owned(COTT_WHISTLE_NAME));
    anchors.push(owned(COTT_FILTER_NAME));
    anchors.push(owned(COTT_SYNTH_NAME));
    proof {
        assert(texts(anchors@) =~= seq![COTT_HAZE_NAME@, COTT_WHISTLE_NAME@, COTT_FILTER_NAME@, COTT_SYNTH_NAME@]);
    }
    inject(catalog, desc, &found, canonical, &anchors, false);
}

} // verus!
