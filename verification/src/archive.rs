//! Packaging: the planned entries of the EPUB container and the ZIP archive
//! they are written into.
//!
//! The container convention asks for a first entry named `mimetype`, stored
//! without compression, holding exactly `application/epub+zip`; every other
//! entry is deflated. The entries are planned here in full — the structural
//! documents, one XHTML document per page, and the copied assets — and then
//! written through a thin trusted layer over the `zip` crate into an
//! in-memory buffer.

use vstd::prelude::*;

use crate::chars::{chars_string, extend_chars, lemma_skip_skip, str_chars};
use crate::doc::{
    apple_xml_text, container_xml_text, create_apple_xml_meta, create_container_xml_content,
    create_content_opf_content, create_page_xhtml_content, create_toc_ncx_content,
    create_toc_xhtml, ncx_text, opf_text, page_xhtml_text, toc_xhtml_text,
};
use crate::pages::asset_subdir_text;
use crate::types::{EpubInfo, InfoView, Page, PageView};

verus! {

// ---------------------------------------------------------------------------
// The planned entries.
// ---------------------------------------------------------------------------

/// One entry of the archive to be: its path within the package, its bytes,
/// and whether it is stored uncompressed rather than deflated.
pub struct EpubEntry {
    /// The path of the entry within the container.
    pub path: String,
    /// The bytes of the entry.
    pub data: Vec<u8>,
    /// Whether the entry is stored uncompressed; everything but the
    /// `mimetype` entry is deflated.
    pub stored: bool,
}

/// What an `EpubEntry` says, as mathematical values.
pub struct EntryView {
    pub path: Seq<char>,
    pub data: Seq<u8>,
    pub stored: bool,
}

impl View for EpubEntry {
    type V = EntryView;

    open spec fn view(&self) -> EntryView {
        EntryView { path: self.path@, data: self.data@, stored: self.stored }
    }
}

/// One asset file of the source folder, read into memory.
pub struct AssetFile {
    /// The file's name, without any folder.
    pub name: String,
    /// The file's bytes.
    pub data: Vec<u8>,
}

/// What an `AssetFile` says, as mathematical values.
pub struct AssetView {
    pub name: Seq<char>,
    pub data: Seq<u8>,
}

impl View for AssetFile {
    type V = AssetView;

    open spec fn view(&self) -> AssetView {
        AssetView { name: self.name@, data: self.data@ }
    }
}

/// The bytes of a text, in its UTF-8 encoding.
pub open spec fn bytes_of_text(s: Seq<char>) -> Seq<u8> {
    vstd::utf8::encode_utf8(s)
}

/// The UTF-8 bytes of a string.
fn text_bytes(s: &String) -> (r: Vec<u8>)
    ensures
        r@ == bytes_of_text(s@),
{
    vstd::string::StrSliceExecFns::as_bytes_vec(s.as_str())
}

/// The fixed first entry: `mimetype`, stored, holding exactly
/// `application/epub+zip`.
pub open spec fn mimetype_entry() -> EntryView {
    EntryView {
        path: "mimetype"@,
        data: bytes_of_text("application/epub+zip"@),
        stored: true,
    }
}

/// The entries under `META-INF`: the container pointer, and the Apple
/// display-options file exactly when fonts are declared.
pub open spec fn meta_inf_entries(info: InfoView) -> Seq<EntryView> {
    let container = EntryView {
        path: "META-INF/container.xml"@,
        data: bytes_of_text(container_xml_text()),
        stored: false,
    };
    if info.fonts is Some {
        seq![
            container,
            EntryView {
                path: "META-INF/com.apple.ibooks.display-options.xml"@,
                data: bytes_of_text(apple_xml_text()),
                stored: false,
            },
        ]
    } else {
        seq![container]
    }
}

/// The structural entries under `OPS`: the package document (under the
/// given timestamp), the navigation map, and the navigation document.
pub open spec fn ops_entries(info: InfoView, ps: Seq<PageView>, ts: Seq<char>) -> Seq<EntryView> {
    seq![
        EntryView {
            path: "OPS/epb.opf"@,
            data: bytes_of_text(opf_text(info, ps, ts)),
            stored: false,
        },
        EntryView { path: "OPS/epb.ncx"@, data: bytes_of_text(ncx_text(info, ps)), stored: false },
        EntryView {
            path: "OPS/toc.xhtml"@,
            data: bytes_of_text(toc_xhtml_text(info, ps)),
            stored: false,
        },
    ]
}

/// The page entries: one XHTML document per page, in page order, under
/// `OPS/content/<file>.xhtml`.
pub open spec fn page_entries(info: InfoView, ps: Seq<PageView>) -> Seq<EntryView>
    decreases ps.len(),
{
    if ps.len() == 0 {
        Seq::empty()
    } else {
        seq![
            EntryView {
                path: "OPS/content/"@ + ps[0].file + ".xhtml"@,
                data: bytes_of_text(page_xhtml_text(info, ps[0])),
                stored: false,
            },
        ] + page_entries(info, ps.skip(1))
    }
}

/// The asset entries: every asset whose extension names a package folder,
/// in the order given, under `OPS/<folder>/<name>`; assets of other
/// extensions are not packaged.
pub open spec fn asset_entries(assets: Seq<AssetView>) -> Seq<EntryView>
    decreases assets.len(),
{
    if assets.len() == 0 {
        Seq::empty()
    } else {
        let rest = asset_entries(assets.skip(1));
        match asset_subdir_text(assets[0].name) {
            Some(d) => seq![
                EntryView {
                    path: "OPS/"@ + d + "/"@ + assets[0].name,
                    data: assets[0].data,
                    stored: false,
                },
            ] + rest,
            None => rest,
        }
    }
}

/// The whole plan, for a given modification timestamp: the mimetype entry
/// first, then the `META-INF` entries, the structural `OPS` documents, the
/// page documents in page order, and the packaged assets.
pub open spec fn planned_entries(
    info: InfoView,
    ps: Seq<PageView>,
    assets: Seq<AssetView>,
    ts: Seq<char>,
) -> Seq<EntryView> {
    seq![mimetype_entry()] + meta_inf_entries(info) + ops_entries(info, ps, ts) + page_entries(
        info,
        ps,
    ) + asset_entries(assets)
}

/// Whether the entries are the plan of the given book, pages and assets for
/// some modification timestamp.
pub open spec fn is_plan_for(
    r: Seq<EntryView>,
    info: InfoView,
    ps: Seq<PageView>,
    assets: Seq<AssetView>,
) -> bool {
    exists|ts: Seq<char>| r == #[trigger] planned_entries(info, ps, assets, ts)
}

proof fn lemma_page_entries_deflated(info: InfoView, ps: Seq<PageView>)
    ensures
        forall|i: int|
            0 <= i < page_entries(info, ps).len() ==> !(#[trigger] page_entries(info, ps)[i]).stored,
    decreases ps.len(),
{
    if ps.len() > 0 {
        lemma_page_entries_deflated(info, ps.skip(1));
        assert forall|i: int|
            0 <= i < page_entries(info, ps).len() implies !(#[trigger] page_entries(info, ps)[i]).stored by {
            if i > 0 {
                assert(page_entries(info, ps)[i] == page_entries(info, ps.skip(1))[i - 1]);
            }
        }
    }
}

proof fn lemma_asset_entries_deflated(assets: Seq<AssetView>)
    ensures
        forall|i: int|
            0 <= i < asset_entries(assets).len() ==> !(#[trigger] asset_entries(assets)[i]).stored,
    decreases assets.len(),
{
    if assets.len() > 0 {
        lemma_asset_entries_deflated(assets.skip(1));
        assert forall|i: int|
            0 <= i < asset_entries(assets).len() implies !(#[trigger] asset_entries(assets)[i]).stored by {
            match asset_subdir_text(assets[0].name) {
                Some(d) => {
                    if i > 0 {
                        assert(asset_entries(assets)[i] == asset_entries(assets.skip(1))[i - 1]);
                    }
                },
                None => {
                    assert(asset_entries(assets)[i] == asset_entries(assets.skip(1))[i]);
                },
            }
        }
    }
}

/// Law: every planned package opens with the `mimetype` entry — stored
/// uncompressed, holding exactly `application/epub+zip` — and every entry
/// after it is deflated; this holds of every book, page list, asset list
/// and timestamp.
pub proof fn lemma_mimetype_first_rest_deflated(
    info: InfoView,
    ps: Seq<PageView>,
    assets: Seq<AssetView>,
    ts: Seq<char>,
)
    ensures
        planned_entries(info, ps, assets, ts).len() >= 1,
        planned_entries(info, ps, assets, ts)[0] == mimetype_entry(),
        mimetype_entry().stored,
        mimetype_entry().path == "mimetype"@,
        mimetype_entry().data == bytes_of_text("application/epub+zip"@),
        forall|i: int|
            1 <= i < planned_entries(info, ps, assets, ts).len() ==> !(
            #[trigger] planned_entries(info, ps, assets, ts)[i]).stored,
{
    let plan = planned_entries(info, ps, assets, ts);
    lemma_page_entries_deflated(info, ps);
    lemma_asset_entries_deflated(assets);
    let meta = meta_inf_entries(info);
    let ops = ops_entries(info, ps, ts);
    let pgs = page_entries(info, ps);
    let ast = asset_entries(assets);
    assert forall|i: int| 1 <= i < plan.len() implies !(#[trigger] plan[i]).stored by {
        if i < 1 + meta.len() {
            assert(plan[i] == meta[i - 1]);
        } else if i < 1 + meta.len() + ops.len() {
            assert(plan[i] == ops[i - 1 - meta.len()]);
        } else if i < 1 + meta.len() + ops.len() + pgs.len() {
            assert(plan[i] == pgs[i - 1 - meta.len() - ops.len()]);
        } else {
            assert(plan[i] == ast[i - 1 - meta.len() - ops.len() - pgs.len()]);
        }
    }
}

/// Plans every entry of the container for a given modification timestamp:
/// the mimetype entry first, then the container pointer (and the Apple
/// display-options file when fonts are declared), the package document, the
/// navigation map and navigation document, one XHTML document per page in
/// page order, and the packaged assets.
pub fn plan_epub_entries_at(
    epub_info: &EpubInfo,
    pages: &Vec<Page>,
    assets: &Vec<AssetFile>,
    modified: &str,
) -> (r: Vec<EpubEntry>)
    ensures
        r@.map_values(|e: EpubEntry| e@) == planned_entries(
            epub_info@,
            pages@.map_values(|p: Page| p@),
            assets@.map_values(|a: AssetFile| a@),
            modified@,
        ),
{
    let ghost ps = pages@.map_values(|p: Page| p@);
    let ghost avs = assets@.map_values(|a: AssetFile| a@);
    let mut r: Vec<EpubEntry> = Vec::new();
    // mimetype
    proof {
        reveal_strlit("mimetype");
        reveal_strlit("application/epub+zip");
    }
    let mime = String::from_str("application/epub+zip");
    r.push(
        EpubEntry { path: String::from_str("mimetype"), data: text_bytes(&mime), stored: true },
    );
    // META-INF
    r.push(
        EpubEntry {
            path: String::from_str("META-INF/container.xml"),
            data: text_bytes(&create_container_xml_content()),
            stored: false,
        },
    );
    if epub_info.fonts.is_some() {
        r.push(
            EpubEntry {
                path: String::from_str("META-INF/com.apple.ibooks.display-options.xml"),
                data: text_bytes(&create_apple_xml_meta()),
                stored: false,
            },
        );
    }
    // the structural OPS documents
    let opf = create_content_opf_content(epub_info, pages, modified);
    let ghost ts = modified@;
    r.push(
        EpubEntry { path: String::from_str("OPS/epb.opf"), data: text_bytes(&opf), stored: false },
    );
    r.push(
        EpubEntry {
            path: String::from_str("OPS/epb.ncx"),
            data: text_bytes(&create_toc_ncx_content(epub_info, pages)),
            stored: false,
        },
    );
    r.push(
        EpubEntry {
            path: String::from_str("OPS/toc.xhtml"),
            data: text_bytes(&create_toc_xhtml(epub_info, pages)),
            stored: false,
        },
    );
    let ghost stem = r@.map_values(|e: EpubEntry| e@);
    proof {
        assert(stem =~= seq![mimetype_entry()] + meta_inf_entries(epub_info@) + ops_entries(
            epub_info@,
            ps,
            ts,
        ));
    }
    // one document per page
    let mut i: usize = 0;
    assert(ps.skip(0) =~= ps);
    while i < pages.len()
        invariant
            i <= ps.len(),
            ps == pages@.map_values(|p: Page| p@),
            ps.len() == pages@.len(),
            stem + page_entries(epub_info@, ps) == r@.map_values(|e: EpubEntry| e@)
                + page_entries(epub_info@, ps.skip(i as int)),
        decreases ps.len() - i,
    {
        assert(ps.skip(i as int)[0] == ps[i as int]);
        assert(ps[i as int] == pages@[i as int]@);
        let ghost old_entries = r@.map_values(|e: EpubEntry| e@);
        let page = &pages[i];
        let mut path: Vec<char> = Vec::new();
        proof {
            reveal_strlit("OPS/content/");
            reveal_strlit(".xhtml");
        }
        let head = str_chars("OPS/content/");
        extend_chars(&mut path, &head);
        let file = str_chars(page.file.as_str());
        extend_chars(&mut path, &file);
        let tail = str_chars(".xhtml");
        extend_chars(&mut path, &tail);
        assert(path@ =~= "OPS/content/"@ + ps[i as int].file + ".xhtml"@);
        let content = create_page_xhtml_content(epub_info, page);
        r.push(
            EpubEntry { path: chars_string(&path), data: text_bytes(&content), stored: false },
        );
        proof {
            lemma_skip_skip(ps, i as int, 1);
            let ev = EntryView {
                path: "OPS/content/"@ + ps[i as int].file + ".xhtml"@,
                data: bytes_of_text(page_xhtml_text(epub_info@, ps[i as int])),
                stored: false,
            };
            assert(r@.map_values(|e: EpubEntry| e@) =~= old_entries.push(ev));
            assert(old_entries + (seq![ev] + page_entries(epub_info@, ps.skip(i + 1)))
                =~= old_entries.push(ev) + page_entries(epub_info@, ps.skip(i + 1)));
        }
        i = i + 1;
    }
    proof {
        assert(ps.skip(ps.len() as int) =~= Seq::<PageView>::empty());
        assert(page_entries(epub_info@, Seq::<PageView>::empty()) =~= Seq::<EntryView>::empty());
        assert(r@.map_values(|e: EpubEntry| e@) + Seq::<EntryView>::empty() =~= r@.map_values(
            |e: EpubEntry| e@,
        ));
    }
    let ghost with_pages = r@.map_values(|e: EpubEntry| e@);
    // the assets
    let mut k: usize = 0;
    assert(avs.skip(0) =~= avs);
    while k < assets.len()
        invariant
            k <= avs.len(),
            avs == assets@.map_values(|a: AssetFile| a@),
            avs.len() == assets@.len(),
            with_pages + asset_entries(avs) == r@.map_values(|e: EpubEntry| e@) + asset_entries(
                avs.skip(k as int),
            ),
        decreases avs.len() - k,
    {
        assert(avs.skip(k as int)[0] == avs[k as int]);
        assert(avs[k as int] == assets@[k as int]@);
        let ghost old_entries = r@.map_values(|e: EpubEntry| e@);
        let asset = &assets[k];
        match crate::pages::asset_subdir(&asset.name) {
            Some(subdir) => {
                let mut path: Vec<char> = Vec::new();
                proof {
                    reveal_strlit("OPS/");
                    reveal_strlit("/");
                }
                let head = str_chars("OPS/");
                extend_chars(&mut path, &head);
                let d = str_chars(subdir.as_str());
                extend_chars(&mut path, &d);
                let sep = str_chars("/");
                extend_chars(&mut path, &sep);
                let name = str_chars(asset.name.as_str());
                extend_chars(&mut path, &name);
                let mut data: Vec<u8> = Vec::new();
                let mut b: usize = 0;
                while b < asset.data.len()
                    invariant
                        b <= asset.data@.len(),
                        data@ == asset.data@.take(b as int),
                        asset == assets@[k as int],
                        k < assets@.len(),
                    decreases asset.data@.len() - b,
                {
                    data.push(asset.data[b]);
                    assert(asset.data@.take(b + 1 as int) =~= asset.data@.take(b as int).push(
                        asset.data@[b as int],
                    ));
                    b = b + 1;
                }
                assert(data@ =~= asset.data@);
                r.push(EpubEntry { path: chars_string(&path), data, stored: false });
                proof {
                    lemma_skip_skip(avs, k as int, 1);
                    assert(path@ =~= "OPS/"@ + subdir@ + "/"@ + avs[k as int].name);
                    let planned_ev = EntryView {
                        path: "OPS/"@ + subdir@ + "/"@ + avs[k as int].name,
                        data: avs[k as int].data,
                        stored: false,
                    };
                    assert(asset_subdir_text(avs[k as int].name) == Some(subdir@));
                    assert(r@.map_values(|e: EpubEntry| e@) =~= old_entries.push(planned_ev));
                    assert(old_entries + (seq![planned_ev] + asset_entries(avs.skip(k + 1)))
                        =~= old_entries.push(planned_ev) + asset_entries(avs.skip(k + 1)));
                }
            },
            None => {
                proof {
                    lemma_skip_skip(avs, k as int, 1);
                }
            },
        }
        k = k + 1;
    }
    proof {
        assert(avs.skip(avs.len() as int) =~= Seq::<AssetView>::empty());
        assert(asset_entries(Seq::<AssetView>::empty()) =~= Seq::<EntryView>::empty());
        assert(r@.map_values(|e: EpubEntry| e@) + Seq::<EntryView>::empty() =~= r@.map_values(
            |e: EpubEntry| e@,
        ));
        assert(r@.map_values(|e: EpubEntry| e@) =~= planned_entries(epub_info@, ps, avs, ts));
    }
    r
}

/// Plans every entry of the container, stamped with the current UTC time:
/// there is a timestamp text for which the result is exactly the plan.
pub fn plan_epub_entries(epub_info: &EpubInfo, pages: &Vec<Page>, assets: &Vec<AssetFile>) -> (r:
    Vec<EpubEntry>)
    ensures
        is_plan_for(
            r@.map_values(|e: EpubEntry| e@),
            epub_info@,
            pages@.map_values(|p: Page| p@),
            assets@.map_values(|a: AssetFile| a@),
        ),
{
    let modified = crate::doc::now_timestamp();
    let r = plan_epub_entries_at(epub_info, pages, assets, modified.as_str());
    proof {
        let ts = modified@;
        assert(r@.map_values(|e: EpubEntry| e@) == planned_entries(
            epub_info@,
            pages@.map_values(|p: Page| p@),
            assets@.map_values(|a: AssetFile| a@),
            ts,
        ));
    }
    r
}

// ---------------------------------------------------------------------------
// The ZIP archive.
// ---------------------------------------------------------------------------

/// An EPUB container being written: a ZIP archive over an in-memory buffer.
/// The `zip` crate holds the state; the entries written so far are its
/// model.
#[verifier::external_body]
pub struct EpubArchive {
    writer: zip::ZipWriter<std::io::Cursor<Vec<u8>>>,
}

/// The entries written into the archive so far: for each, its name, its
/// bytes, and whether it is stored uncompressed.
pub uninterp spec fn archive_entries(a: EpubArchive) -> Seq<(Seq<char>, Seq<u8>, bool)>;

/// Whether the writer is still in its healthy streaming state: every
/// operation on it so far was taken, none refused. A refused write leaves
/// stray bytes behind that the final serialization works around, so the
/// bytes are only pinned down for an archive that stayed healthy.
pub uninterp spec fn archive_ok(a: EpubArchive) -> bool;

/// The serialized ZIP container holding the given entries, written with the
/// fixed options used here (a fixed timestamp, fixed permissions, one fixed
/// compressor): a function of the entries alone.
pub uninterp spec fn zip_bytes(entries: Seq<(Seq<char>, Seq<u8>, bool)>) -> Seq<u8>;

/// An entry as the archive model carries it.
pub open spec fn entry_tuple(e: EntryView) -> (Seq<char>, Seq<u8>, bool) {
    (e.path, e.data, e.stored)
}

/// Whether one entry stays within the bounds the archive format sets here:
/// the UTF-8 name fits the format's 16-bit length field, and the data stays
/// under the 4 GiB mark past which the writer demands the large-file flag.
pub open spec fn entry_fits(path: Seq<char>, data: Seq<u8>) -> bool {
    &&& vstd::utf8::encode_utf8(path).len() <= 0xffff
    &&& data.len() <= 0xffffffff
}

impl EpubArchive {
    /// Relies on `zip::ZipWriter::new` over an in-memory buffer: a new,
    /// healthy archive without entries.
    #[verifier::external_body]
    pub fn new() -> (a: EpubArchive)
        ensures
            archive_entries(a) == Seq::<(Seq<char>, Seq<u8>, bool)>::empty(),
            archive_ok(a),
    {
        EpubArchive { writer: zip::ZipWriter::new(std::io::Cursor::new(Vec::new())) }
    }

    /// Relies on `zip::ZipWriter::start_file` and
    /// `std::io::Write::write_all`: begins an entry under the given name —
    /// stored or deflated as asked, with fixed permissions and the fixed
    /// default timestamp — and writes the bytes into it. On success the new
    /// entry stands at the end and a healthy archive stays healthy. On a
    /// healthy archive, writing into the in-memory buffer cannot fail, and
    /// the only refusals the crate's source has for these options are a name
    /// the archive already holds, a name too long for the format's length
    /// field, and data past the 4 GiB mark — so a fresh, fitting entry is
    /// taken.
    #[verifier::external_body]
    pub fn add_entry(&mut self, name: &str, data: &Vec<u8>, stored: bool) -> (ok: bool)
        ensures
            ok ==> archive_entries(*final(self)) == archive_entries(*old(self)).push(
                (name@, data@, stored),
            ),
            ok && archive_ok(*old(self)) ==> archive_ok(*final(self)),
            archive_ok(*old(self)) && entry_fits(name@, data@) && (forall|i: int|
                0 <= i < archive_entries(*old(self)).len()
                    ==> (#[trigger] archive_entries(*old(self))[i]).0 != name@) ==> ok,
    {
        let method = if stored {
            zip::CompressionMethod::Stored
        } else {
            zip::CompressionMethod::Deflated
        };
        let options = zip::write::SimpleFileOptions::DEFAULT.compression_method(
            method,
        ).unix_permissions(0o755);
        if self.writer.start_file(name, options).is_err() {
            return false;
        }
        if std::io::Write::write_all(&mut self.writer, data.as_slice()).is_err() {
            return false;
        }
        true
    }

    /// Relies on `zip::ZipWriter::finish`: writes the central directory and
    /// hands back the serialized container. On a healthy archive over the
    /// in-memory buffer this cannot fail, and the bytes depend on the
    /// entries alone.
    #[verifier::external_body]
    pub fn finish(self) -> (r: Option<Vec<u8>>)
        ensures
            archive_ok(self) ==> r is Some,
            match r {
                Some(bytes) => archive_ok(self) ==> bytes@ == zip_bytes(archive_entries(self)),
                None => true,
            },
    {
        match self.writer.finish() {
            Ok(cursor) => Some(cursor.into_inner()),
            Err(_) => None,
        }
    }
}

/// Whether no two entries share a path.
pub open spec fn distinct_paths(es: Seq<EntryView>) -> bool {
    forall|i: int, j: int|
        0 <= i < j < es.len() ==> (#[trigger] es[i]).path != (#[trigger] es[j]).path
}

/// Whether every entry stays within the bounds of the archive format.
pub open spec fn entries_fit(es: Seq<EntryView>) -> bool {
    forall|i: int| 0 <= i < es.len() ==> entry_fits((#[trigger] es[i]).path, es[i].data)
}

/// Packs the planned entries into the EPUB container: the entries are
/// written in order, the first one stored and the rest deflated as planned.
/// A result is owed whenever the entries are in order — no two share a path
/// and each stays within the format's bounds — and any result is the
/// serialized container of exactly these entries. Entries that are not in
/// order — two under one path, say — are refused by the writer, and there
/// is no result.
pub fn compress_epub(entries: &Vec<EpubEntry>) -> (r: Option<Vec<u8>>)
    ensures
        distinct_paths(entries@.map_values(|e: EpubEntry| e@)) && entries_fit(
            entries@.map_values(|e: EpubEntry| e@),
        ) ==> r is Some,
        match r {
            Some(bytes) => bytes@ == zip_bytes(
                entries@.map_values(|e: EpubEntry| e@).map_values(
                    |ev: EntryView| entry_tuple(ev),
                ),
            ),
            None => true,
        },
{
    let ghost evs = entries@.map_values(|e: EpubEntry| e@);
    let ghost planned = evs.map_values(|ev: EntryView| entry_tuple(ev));
    let mut archive = EpubArchive::new();
    let mut i: usize = 0;
    proof {
        assert(archive_entries(archive) =~= planned.take(0));
    }
    while i < entries.len()
        invariant
            i <= entries@.len(),
            evs == entries@.map_values(|e: EpubEntry| e@),
            planned == evs.map_values(|ev: EntryView| entry_tuple(ev)),
            planned.len() == entries@.len(),
            evs.len() == entries@.len(),
            archive_entries(archive) == planned.take(i as int),
            archive_ok(archive),
        decreases entries@.len() - i,
    {
        let e = &entries[i];
        proof {
            assert(evs[i as int] == entries@[i as int]@);
            assert(planned[i as int] == entry_tuple(evs[i as int]));
        }
        let ok = archive.add_entry(e.path.as_str(), &e.data, e.stored);
        if !ok {
            proof {
                // a refusal means the entries were not in order: this one
                // either leaves the format's bounds or repeats a path
                if distinct_paths(evs) && entries_fit(evs) {
                    assert(entry_fits(evs[i as int].path, evs[i as int].data));
                    assert forall|m: int|
                        0 <= m < archive_entries(archive).len() implies (
                    #[trigger] archive_entries(archive)[m]).0 != e.path@ by {
                        assert(planned.take(i as int)[m] == entry_tuple(evs[m]));
                        assert(evs[m].path != evs[i as int].path);
                    }
                    assert(false);
                }
            }
            return None;
        }
        proof {
            assert(planned.take(i + 1) =~= planned.take(i as int).push(planned[i as int]));
        }
        i = i + 1;
    }
    assert(planned.take(planned.len() as int) =~= planned);
    archive.finish()
}

} // verus!
