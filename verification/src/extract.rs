//! Turning one build page into its dependency records: locate the
//! architecture and the steps table, walk the step rows, keep the failed or
//! cached ones that name a log or propagated build, and emit one record per
//! distinct store path, the last row winning.

use vstd::prelude::*;
use vstd::pervasive::VecAdditionalExecFns;
use vstd::string::StrSliceExecFns;
use crate::dom::{
    FlatNode, NodeView, MAX_PAGE_CHARS, chosen_link, chosen_link_upto, dom_of, dom_view,
    collect_tds, find_arch, find_table, find_tt_under, first_arch, first_table, first_tt_under,
    is_anchor_under, is_row, parse_page, row_at, select_link, tds_of,
};
use crate::text::{
    check_field, contains_seq, field_ok, find_from, first_at, lemma_first_at, parse_u64,
    starts_with_seq, str_contains, str_eq, token_u64,
};

verus! {

/// Failures that discard one build's page; they never abort the evaluation.
#[derive(Clone, Copy, Debug, PartialEq, Eq, Structural)]
pub enum ParseError {
    /// No `tt` element below an `info-table`-classed element.
    NoArchitecture,
    /// No `clickable-rows` table below the `tabs-buildsteps` element.
    NoStepsTable,
    /// A kept row's second cell holds no `tt` element.
    NoStorePath,
    /// A kept row's store path is shorter than its structural prefix.
    StorePathTooShort,
    /// A kept row's path name is empty or holds a semicolon or newline, so no
    /// well-formed output line could carry it.
    BadPathName,
    /// The page's architecture text is empty or holds a semicolon or newline.
    BadArchitecture,
    /// A kept row's chosen link has no path segment after `build`.
    NoOriginBuildId,
    /// A kept row's chosen link names no decimal build identifier.
    BadOriginBuildId,
    /// The page text is longer than the parser's buffers can hold: a machine
    /// limit, not a page shape.
    PageTooLarge,
}

/// One failed dependency artifact of one build.
#[derive(Debug)]
pub struct Record {
    /// The artifact's store path, up to the first comma.
    pub store_path: String,
    /// The human-readable part of the store path.
    pub path_name: String,
    /// The architecture the page reports.
    pub architecture: String,
    /// The build whose failure produced the artifact.
    pub origin: u64,
}

pub struct RecordV {
    pub store_path: Seq<char>,
    pub path_name: Seq<char>,
    pub architecture: Seq<char>,
    pub origin: u64,
}

impl View for Record {
    type V = RecordV;

    open spec fn view(&self) -> RecordV {
        RecordV {
            store_path: self.store_path@,
            path_name: self.path_name@,
            architecture: self.architecture@,
            origin: self.origin,
        }
    }
}

/// The part of `s` before its first comma; all of `s` when it has none.
pub open spec fn comma_prefix(s: Seq<char>) -> Seq<char> {
    match first_at(s, ',', 0) {
        Some(i) => s.subrange(0, i),
        None => s,
    }
}

fn comma_prefix_exec<'a>(s: &'a str) -> (r: &'a str)
    ensures
        r@ == comma_prefix(s@),
{
    proof {
        lemma_first_at(s@, ',', 0);
    }
    match find_from(s, ',', 0) {
        Some(i) => s.substring_char(0, i),
        None => s,
    }
}

/// End of the slash-separated path segment of `h` that starts at `from`: the
/// next slash, or the end of `h`. Out-of-window search results are clamped.
pub open spec fn token_end(h: Seq<char>, from: int) -> int {
    match first_at(h, '/', from) {
        Some(e) => if e < from {
            from
        } else if e > h.len() {
            h.len() as int
        } else {
            e
        },
        None => h.len() as int,
    }
}

/// Start of the path segment after the first segment of `h` at or behind
/// `from` that reads exactly "build", if a segment follows it.
pub open spec fn origin_start(h: Seq<char>, from: int) -> Option<int>
    decreases h.len() - from,
{
    if from < 0 || from > h.len() {
        None
    } else {
        let en = token_end(h, from);
        if h.subrange(from, en) == "build"@ {
            if en < h.len() {
                Some(en + 1)
            } else {
                None
            }
        } else {
            if en < h.len() {
                origin_start(h, en + 1)
            } else {
                None
            }
        }
    }
}

/// The path segment after the chosen link's `build` segment, which names the
/// build that produced the failure; absent when the link has no such segment.
pub open spec fn origin_token(h: Seq<char>) -> Option<Seq<char>> {
    match origin_start(h, 0) {
        Some(st) => Some(h.subrange(st, token_end(h, st))),
        None => None,
    }
}

fn token_end_exec(h: &str, from: usize) -> (en: usize)
    requires
        from <= h@.len(),
    ensures
        en == token_end(h@, from as int),
        from <= en <= h@.len(),
{
    proof {
        lemma_first_at(h@, '/', from as int);
    }
    match find_from(h, '/', from) {
        Some(e) => e,
        None => h.unicode_len(),
    }
}

fn origin_start_exec(h: &str, from: usize) -> (r: Option<usize>)
    requires
        from <= h@.len(),
    ensures
        match r {
            Some(st) => origin_start(h@, from as int) == Some(st as int) && st <= h@.len(),
            None => origin_start(h@, from as int) is None,
        },
    decreases h@.len() - from,
{
    let len = h.unicode_len();
    let en = token_end_exec(h, from);
    let tok = h.substring_char(from, en);
    if str_eq(tok, "build") {
        if en < len {
            Some(en + 1)
        } else {
            None
        }
    } else {
        if en < len {
            origin_start_exec(h, en + 1)
        } else {
            None
        }
    }
}

fn origin_token_exec<'a>(h: &'a str) -> (r: Option<&'a str>)
    ensures
        match r {
            Some(t) => origin_token(h@) == Some(t@),
            None => origin_token(h@) is None,
        },
{
    match origin_start_exec(h, 0) {
        None => None,
        Some(st) => {
            let en = token_end_exec(h, st);
            Some(h.substring_char(st, en))
        },
    }
}

/// What one step row yields: nothing, a record, or a page-discarding failure.
pub open spec fn row_spec(dom: Seq<NodeView>, arch: Seq<char>, r: int) -> Result<
    Option<RecordV>,
    ParseError,
> {
    let tds = tds_of(dom, r);
    if tds.len() != 5 {
        Ok(None)
    } else {
        let status = dom[tds[4]].text;
        if !contains_seq(status, "Failed"@) && !contains_seq(status, "Cached"@) {
            Ok(None)
        } else {
            match chosen_link(dom, tds[4]) {
                None => Ok(None),
                Some(href) => match first_tt_under(dom, tds[1], 0) {
                    None => Err(ParseError::NoStorePath),
                    Some(tt) => {
                        let sp = comma_prefix(dom[tt].text);
                        if sp.len() < 44 {
                            Err(ParseError::StorePathTooShort)
                        } else if !field_ok(sp.skip(44)) {
                            Err(ParseError::BadPathName)
                        } else {
                            match origin_token(href) {
                                None => Err(ParseError::NoOriginBuildId),
                                Some(tok) => match token_u64(tok) {
                                    None => Err(ParseError::BadOriginBuildId),
                                    Some(b) => Ok(
                                        Some(
                                            RecordV {
                                                store_path: sp,
                                                path_name: sp.skip(44),
                                                architecture: arch,
                                                origin: b,
                                            },
                                        ),
                                    ),
                                },
                            }
                        }
                    },
                },
            }
        }
    }
}

pub open spec fn row_res_view(o: Result<Option<Record>, ParseError>) -> Result<
    Option<RecordV>,
    ParseError,
> {
    match o {
        Ok(Some(rec)) => Ok(Some(rec@)),
        Ok(None) => Ok(None),
        Err(e) => Err(e),
    }
}

fn row_exec(nodes: &Vec<FlatNode>, arch: &String, r: usize) -> (out: Result<
    Option<Record>,
    ParseError,
>)
    ensures
        row_res_view(out) == row_spec(dom_view(nodes@), arch@, r as int),
{
    let ghost dom = dom_view(nodes@);
    let tds = collect_tds(nodes, r);
    proof {
        assert(tds@.map_values(|x: usize| x as int).len() == tds@.len());
    }
    if tds.len() != 5 {
        return Ok(None);
    }
    let c4 = tds[4];
    let c1 = tds[1];
    proof {
        assert(tds@.map_values(|x: usize| x as int)[4] == tds_of(dom, r as int)[4]);
        assert(tds@.map_values(|x: usize| x as int)[1] == tds_of(dom, r as int)[1]);
        assert(dom[c4 as int] == nodes@[c4 as int]@);
    }
    let status = nodes[c4].text.as_str();
    let failed = str_contains(status, "Failed");
    let cached = str_contains(status, "Cached");
    if !failed && !cached {
        return Ok(None);
    }
    let href = match select_link(nodes, c4) {
        None => {
            return Ok(None);
        },
        Some(h) => h,
    };
    let tt = match find_tt_under(nodes, c1, 0) {
        None => {
            return Err(ParseError::NoStorePath);
        },
        Some(i) => i,
    };
    proof {
        assert(dom[tt as int] == nodes@[tt as int]@);
    }
    let raw = nodes[tt].text.as_str();
    let sp = comma_prefix_exec(raw);
    let sp_len = sp.unicode_len();
    if sp_len < 44 {
        return Err(ParseError::StorePathTooShort);
    }
    let path_name = sp.substring_char(44, sp_len);
    proof {
        assert(path_name@ =~= comma_prefix(dom[tt as int].text).skip(44));
    }
    if !check_field(path_name) {
        return Err(ParseError::BadPathName);
    }
    let tok = match origin_token_exec(href.as_str()) {
        None => {
            return Err(ParseError::NoOriginBuildId);
        },
        Some(t) => t,
    };
    let b = match parse_u64(tok) {
        None => {
            return Err(ParseError::BadOriginBuildId);
        },
        Some(v) => v,
    };
    let rec = Record {
        store_path: sp.to_owned(),
        path_name: path_name.to_owned(),
        architecture: arch.clone(),
        origin: b,
    };
    Ok(Some(rec))
}

/// First index in `s` from `from` on whose record holds store path `sp`.
pub open spec fn find_sp(s: Seq<RecordV>, sp: Seq<char>, from: int) -> Option<int>
    decreases s.len() - from,
{
    if from < 0 || from >= s.len() {
        None
    } else if s[from].store_path == sp {
        Some(from)
    } else {
        find_sp(s, sp, from + 1)
    }
}

/// Intra-build dedup: a record replaces the record of its store path, or
/// joins the end.
pub open spec fn insert_record(s: Seq<RecordV>, r: RecordV) -> Seq<RecordV> {
    match find_sp(s, r.store_path, 0) {
        Some(i) => s.update(i, r),
        None => s.push(r),
    }
}

/// The records of the step rows among nodes `[0, upto)` of the page, in
/// document order with dedup by store path, or the first row failure.
pub open spec fn rows_fold(dom: Seq<NodeView>, arch: Seq<char>, t: int, upto: int) -> Result<
    Seq<RecordV>,
    ParseError,
>
    decreases upto,
{
    if upto <= 0 {
        Ok(Seq::empty())
    } else {
        let prev = rows_fold(dom, arch, t, upto - 1);
        if !is_row(dom, upto - 1, t) {
            prev
        } else {
            match prev {
                Err(e) => Err(e),
                Ok(acc) => match row_spec(dom, arch, upto - 1) {
                    Err(e) => Err(e),
                    Ok(None) => Ok(acc),
                    Ok(Some(r)) => Ok(insert_record(acc, r)),
                },
            }
        }
    }
}

/// Everything a build page yields: the records of its step rows, tagged with
/// the page's architecture, or the failure that discards the page.
pub open spec fn extract_spec(dom: Seq<NodeView>) -> Result<Seq<RecordV>, ParseError> {
    match first_arch(dom, 0) {
        None => Err(ParseError::NoArchitecture),
        Some(a) => if !field_ok(dom[a].text) {
            Err(ParseError::BadArchitecture)
        } else {
            match first_table(dom, 0) {
                None => Err(ParseError::NoStepsTable),
                Some(t) => rows_fold(dom, dom[a].text, t, dom.len() as int),
            }
        },
    }
}

pub open spec fn recs_view(v: Seq<Record>) -> Seq<RecordV> {
    v.map_values(|x: Record| x@)
}

pub open spec fn records_res_view(r: Result<Vec<Record>, ParseError>) -> Result<
    Seq<RecordV>,
    ParseError,
> {
    match r {
        Ok(v) => Ok(recs_view(v@)),
        Err(e) => Err(e),
    }
}

fn find_sp_exec(acc: &Vec<Record>, sp: &str, from: usize) -> (r: Option<usize>)
    ensures
        match r {
            Some(i) => find_sp(recs_view(acc@), sp@, from as int) == Some(i as int) && i
                < acc@.len(),
            None => find_sp(recs_view(acc@), sp@, from as int) is None,
        },
    decreases acc@.len() - from,
{
    if from >= acc.len() {
        return None;
    }
    proof {
        assert(recs_view(acc@)[from as int] == acc@[from as int]@);
    }
    if crate::text::str_eq(acc[from].store_path.as_str(), sp) {
        Some(from)
    } else {
        find_sp_exec(acc, sp, from + 1)
    }
}

fn insert_dedup(acc: &mut Vec<Record>, rec: Record)
    ensures
        recs_view(final(acc)@) == insert_record(recs_view(old(acc)@), rec@),
{
    match find_sp_exec(acc, rec.store_path.as_str(), 0) {
        Some(k) => {
            acc.set(k, rec);
            proof {
                assert(recs_view(acc@) =~= recs_view(old(acc)@).update(
                    find_sp(recs_view(old(acc)@), rec@.store_path, 0)->0,
                    rec@,
                ));
            }
        },
        None => {
            acc.push(rec);
            proof {
                assert(recs_view(acc@) =~= recs_view(old(acc)@).push(rec@));
            }
        },
    }
}

/// An error among the rows `[0, upto)` stands for every longer prefix.
proof fn lemma_rows_fold_err(dom: Seq<NodeView>, arch: Seq<char>, t: int, u: int, u2: int)
    requires
        rows_fold(dom, arch, t, u) is Err,
        u <= u2,
    ensures
        rows_fold(dom, arch, t, u2) == rows_fold(dom, arch, t, u),
    decreases u2 - u,
{
    if u < u2 {
        lemma_rows_fold_err(dom, arch, t, u, u2 - 1);
    }
}

/// What `find_sp` returns: the first hit from `from` on, or nothing.
proof fn lemma_find_sp(s: Seq<RecordV>, sp: Seq<char>, from: int)
    requires
        0 <= from,
    ensures
        match find_sp(s, sp, from) {
            Some(i) => from <= i < s.len() && s[i].store_path == sp && (forall|k: int|
                from <= k < i ==> s[k].store_path != sp),
            None => forall|k: int| from <= k < s.len() ==> s[k].store_path != sp,
        },
    decreases s.len() - from,
{
    if from < s.len() && !(s[from].store_path == sp) {
        lemma_find_sp(s, sp, from + 1);
    }
}

/// The converse: the first index carrying `sp` is what `find_sp` returns.
proof fn lemma_find_sp_is(s: Seq<RecordV>, sp: Seq<char>, from: int, i: int)
    requires
        0 <= from <= i < s.len(),
        s[i].store_path == sp,
        forall|k: int| from <= k < i ==> s[k].store_path != sp,
    ensures
        find_sp(s, sp, from) == Some(i),
    decreases s.len() - from,
{
    if from < i {
        lemma_find_sp_is(s, sp, from + 1, i);
    }
}

/// Every record a row yields is well shaped: the path name is the store path
/// from its structural prefix on, line-ready, and the architecture is the
/// page's.
proof fn lemma_row_spec_shape(dom: Seq<NodeView>, arch: Seq<char>, r: int)
    ensures
        match row_spec(dom, arch, r) {
            Ok(Some(rec)) => rec.store_path.len() >= 44 && rec.path_name == rec.store_path.skip(44)
                && field_ok(rec.path_name) && rec.architecture == arch,
            _ => true,
        },
{
}

/// The fold's results are deduplicated and well shaped.
proof fn lemma_rows_fold_shape(dom: Seq<NodeView>, arch: Seq<char>, t: int, upto: int, s: Seq<RecordV>)
    requires
        rows_fold(dom, arch, t, upto) == Ok::<Seq<RecordV>, ParseError>(s),
    ensures
        forall|k: int, l: int| 0 <= k < l < s.len() ==> s[k].store_path != s[l].store_path,
        forall|k: int|
            0 <= k < s.len() ==> (#[trigger] s[k]).store_path.len() >= 44 && s[k].path_name
                == s[k].store_path.skip(44) && field_ok(s[k].path_name) && s[k].architecture
                == arch,
    decreases upto,
{
    if upto > 0 {
        match rows_fold(dom, arch, t, upto - 1) {
            Ok(acc) => {
                lemma_rows_fold_shape(dom, arch, t, upto - 1, acc);
                if is_row(dom, upto - 1, t) {
                    match row_spec(dom, arch, upto - 1) {
                        Ok(Some(r)) => {
                            lemma_row_spec_shape(dom, arch, upto - 1);
                            lemma_find_sp(acc, r.store_path, 0);
                            match find_sp(acc, r.store_path, 0) {
                                Some(i) => {
                                    assert(s == acc.update(i, r));
                                    assert(acc[i].store_path == r.store_path);
                                },
                                None => {
                                    assert(s == acc.push(r));
                                },
                            }
                        },
                        _ => {},
                    }
                }
            },
            Err(_) => {},
        }
    }
}

/// Everything the records of a successfully extracted page satisfy: pairwise
/// distinct store paths, the path name derived from character 44 of the store
/// path, and line-ready (non-empty, separator-free) path name and
/// architecture fields.
pub proof fn lemma_extract_spec_shape(dom: Seq<NodeView>, v: Seq<RecordV>)
    requires
        extract_spec(dom) == Ok::<Seq<RecordV>, ParseError>(v),
    ensures
        forall|k: int, l: int| 0 <= k < l < v.len() ==> v[k].store_path != v[l].store_path,
        forall|k: int|
            0 <= k < v.len() ==> (#[trigger] v[k]).store_path.len() >= 44 && v[k].path_name
                == v[k].store_path.skip(44) && field_ok(v[k].path_name) && field_ok(
                v[k].architecture,
            ),
{
    match first_arch(dom, 0) {
        Some(a) => {
            match first_table(dom, 0) {
                Some(t) => {
                    lemma_rows_fold_shape(dom, dom[a].text, t, dom.len() as int, v);
                },
                None => {},
            }
        },
        None => {},
    }
}

/// The record a row yields when it carries store path `sp`, for the last such
/// row among nodes `[0, upto)`.
pub open spec fn last_row_record(
    dom: Seq<NodeView>,
    arch: Seq<char>,
    t: int,
    upto: int,
    sp: Seq<char>,
) -> Option<RecordV>
    decreases upto,
{
    if upto <= 0 {
        None
    } else {
        let prev = last_row_record(dom, arch, t, upto - 1, sp);
        if is_row(dom, upto - 1, t) {
            match row_spec(dom, arch, upto - 1) {
                Ok(Some(r)) => if r.store_path == sp {
                    Some(r)
                } else {
                    prev
                },
                _ => prev,
            }
        } else {
            prev
        }
    }
}

/// Intra-build dedup, last row wins: for every store path, the fold's result
/// holds exactly one record with that store path when some row yields one —
/// the last such row's record — and none otherwise.
pub proof fn lemma_last_row_wins(
    dom: Seq<NodeView>,
    arch: Seq<char>,
    t: int,
    upto: int,
    s: Seq<RecordV>,
    sp: Seq<char>,
)
    requires
        rows_fold(dom, arch, t, upto) == Ok::<Seq<RecordV>, ParseError>(s),
    ensures
        match last_row_record(dom, arch, t, upto, sp) {
            Some(r) => match find_sp(s, sp, 0) {
                Some(i) => 0 <= i < s.len() && s[i] == r,
                None => false,
            },
            None => find_sp(s, sp, 0) is None,
        },
    decreases upto,
{
    lemma_find_sp(s, sp, 0);
    if upto <= 0 {
    } else {
        match rows_fold(dom, arch, t, upto - 1) {
            Ok(acc) => {
                lemma_last_row_wins(dom, arch, t, upto - 1, acc, sp);
                lemma_find_sp(acc, sp, 0);
                if is_row(dom, upto - 1, t) {
                    match row_spec(dom, arch, upto - 1) {
                        Ok(Some(r)) => {
                            lemma_find_sp(acc, r.store_path, 0);
                            match find_sp(acc, r.store_path, 0) {
                                Some(j) => {
                                    assert(s == acc.update(j, r));
                                    if r.store_path == sp {
                                        lemma_find_sp_is(s, sp, 0, j);
                                    } else {
                                        match find_sp(acc, sp, 0) {
                                            Some(i) => {
                                                assert(acc[j].store_path == r.store_path);
                                                assert(i != j);
                                                lemma_find_sp_is(s, sp, 0, i);
                                            },
                                            None => {},
                                        }
                                    }
                                },
                                None => {
                                    assert(s == acc.push(r));
                                    if r.store_path == sp {
                                        lemma_find_sp_is(s, sp, 0, acc.len() as int);
                                    } else {
                                        match find_sp(acc, sp, 0) {
                                            Some(i) => {
                                                lemma_find_sp_is(s, sp, 0, i);
                                            },
                                            None => {},
                                        }
                                    }
                                },
                            }
                        },
                        _ => {},
                    }
                }
            },
            Err(_) => {},
        }
    }
}

/// Extracts the dependency records of one parsed build page: one record per
/// distinct store path among the failed or cached step rows that name a log
/// or propagated build, each tagged with the page's architecture; or the
/// failure that discards the page.
pub fn extract_records(nodes: &Vec<FlatNode>) -> (r: Result<Vec<Record>, ParseError>)
    ensures
        records_res_view(r) == extract_spec(dom_view(nodes@)),
        r matches Ok(v) ==> forall|k: int, l: int|
            0 <= k < l < v@.len() ==> v@[k]@.store_path != v@[l]@.store_path,
        r matches Ok(v) ==> forall|k: int|
            0 <= k < v@.len() ==> (#[trigger] v@[k])@.store_path.len() >= 44 && v@[k]@.path_name
                == v@[k]@.store_path.skip(44) && field_ok(v@[k]@.path_name) && field_ok(
                v@[k]@.architecture,
            ),
{
    let ghost dom = dom_view(nodes@);
    let arch_idx = match find_arch(nodes, 0) {
        None => {
            return Err(ParseError::NoArchitecture);
        },
        Some(i) => i,
    };
    proof {
        assert(dom[arch_idx as int] == nodes@[arch_idx as int]@);
    }
    let arch = nodes[arch_idx].text.clone();
    let ghost ga = dom[arch_idx as int].text;
    if !check_field(arch.as_str()) {
        return Err(ParseError::BadArchitecture);
    }
    let table_idx = match find_table(nodes, 0) {
        None => {
            return Err(ParseError::NoStepsTable);
        },
        Some(i) => i,
    };
    let mut acc: Vec<Record> = Vec::new();
    let mut i: usize = 0;
    proof {
        assert(dom.len() == nodes@.len());
        assert(recs_view(acc@) =~= Seq::<RecordV>::empty());
        assert(rows_fold(dom, ga, table_idx as int, 0) == Ok::<Seq<RecordV>, ParseError>(
            recs_view(acc@),
        ));
    }
    while i < nodes.len()
        invariant
            dom == dom_view(nodes@),
            i <= nodes@.len(),
            arch@ == ga,
            arch_idx < nodes@.len(),
            table_idx < nodes@.len(),
            ga == dom[arch_idx as int].text,
            field_ok(ga),
            first_arch(dom, 0) == Some(arch_idx as int),
            first_table(dom, 0) == Some(table_idx as int),
            rows_fold(dom, ga, table_idx as int, i as int) == Ok::<Seq<RecordV>, ParseError>(
                recs_view(acc@),
            ),
        decreases nodes@.len() - i,
    {
        let is_r = row_at(nodes, i, table_idx);
        if is_r {
            match row_exec(nodes, &arch, i) {
                Err(e) => {
                    proof {
                        assert(rows_fold(dom, ga, table_idx as int, i + 1) == Err::<
                            Seq<RecordV>,
                            ParseError,
                        >(e));
                        lemma_rows_fold_err(dom, ga, table_idx as int, i + 1, dom.len() as int);
                        assert(rows_fold(dom, ga, table_idx as int, dom.len() as int) == Err::<
                            Seq<RecordV>,
                            ParseError,
                        >(e));
                        assert(first_arch(dom, 0) == Some(arch_idx as int));
                        assert(first_table(dom, 0) == Some(table_idx as int));
                        assert(extract_spec(dom) == Err::<Seq<RecordV>, ParseError>(e));
                    }
                    return Err(e);
                },
                Ok(None) => {
                    proof {
                        assert(rows_fold(dom, ga, table_idx as int, i + 1) == Ok::<
                            Seq<RecordV>,
                            ParseError,
                        >(recs_view(acc@)));
                    }
                },
                Ok(Some(rec)) => {
                    let ghost rv = rec@;
                    let ghost before = recs_view(acc@);
                    insert_dedup(&mut acc, rec);
                    proof {
                        assert(rows_fold(dom, ga, table_idx as int, i + 1) == Ok::<
                            Seq<RecordV>,
                            ParseError,
                        >(insert_record(before, rv)));
                    }
                },
            }
        } else {
            proof {
                assert(rows_fold(dom, ga, table_idx as int, i + 1) == rows_fold(
                    dom,
                    ga,
                    table_idx as int,
                    i as int,
                ));
            }
        }
        i += 1;
    }
    proof {
        assert(i as int == dom.len());
        let ghost s = recs_view(acc@);
        assert(rows_fold(dom, ga, table_idx as int, dom.len() as int) == Ok::<
            Seq<RecordV>,
            ParseError,
        >(s));
        lemma_rows_fold_shape(dom, ga, table_idx as int, dom.len() as int, s);
        assert(s.len() == acc@.len());
        assert forall|k: int| 0 <= k < acc@.len() implies (#[trigger] acc@[k])@.store_path.len()
            >= 44 && acc@[k]@.path_name == acc@[k]@.store_path.skip(44) && field_ok(
            acc@[k]@.path_name,
        ) && field_ok(acc@[k]@.architecture) by {
            assert(s[k] == acc@[k]@);
        }
        assert forall|k: int, l: int| 0 <= k < l < acc@.len() implies acc@[k]@.store_path
            != acc@[l]@.store_path by {
            assert(s[k] == acc@[k]@);
            assert(s[l] == acc@[l]@);
        }
    }
    Ok(acc)
}

/// Turns one fetched build page into its dependency records: parses the page
/// and extracts as `extract_records` does. A page too long for the parser's
/// buffers is refused up front instead.
pub fn build_page_records(page: &str) -> (r: Result<Vec<Record>, ParseError>)
    ensures
        page@.len() <= MAX_PAGE_CHARS ==> records_res_view(r) == extract_spec(dom_of(page@)),
        page@.len() > MAX_PAGE_CHARS ==> r == Err::<Vec<Record>, ParseError>(
            ParseError::PageTooLarge,
        ),
        r matches Ok(v) ==> forall|k: int, l: int|
            0 <= k < l < v@.len() ==> v@[k]@.store_path != v@[l]@.store_path,
        r matches Ok(v) ==> forall|k: int|
            0 <= k < v@.len() ==> (#[trigger] v@[k])@.store_path.len() >= 44 && v@[k]@.path_name
                == v@[k]@.store_path.skip(44) && field_ok(v@[k]@.path_name) && field_ok(
                v@[k]@.architecture,
            ),
{
    if page.unicode_len() > MAX_PAGE_CHARS {
        return Err(ParseError::PageTooLarge);
    }
    let nodes = parse_page(page);
    extract_records(&nodes)
}

/// A row with other than exactly five direct cells yields no record.
pub proof fn lemma_row_shape_filter(dom: Seq<NodeView>, arch: Seq<char>, r: int)
    requires
        tds_of(dom, r).len() != 5,
    ensures
        row_spec(dom, arch, r) == Ok::<Option<RecordV>, ParseError>(None),
{
}

/// A row whose status text holds neither "Failed" nor "Cached" yields no
/// record.
pub proof fn lemma_status_filter(dom: Seq<NodeView>, arch: Seq<char>, r: int)
    requires
        tds_of(dom, r).len() == 5,
        !contains_seq(dom[tds_of(dom, r)[4]].text, "Failed"@),
        !contains_seq(dom[tds_of(dom, r)[4]].text, "Cached"@),
    ensures
        row_spec(dom, arch, r) == Ok::<Option<RecordV>, ParseError>(None),
{
}

proof fn lemma_link_pref_upto(dom: Seq<NodeView>, c: int, i: int, upto: int)
    requires
        is_anchor_under(dom, i, c),
        starts_with_seq(dom[i].text, "build "@),
        dom[i].href is Some,
        forall|j: int|
            i < j < dom.len() ==> !(is_anchor_under(dom, j, c) && starts_with_seq(
                #[trigger] dom[j].text,
                "build "@,
            )),
        i < upto <= dom.len(),
    ensures
        chosen_link_upto(dom, c, upto) == dom[i].href,
    decreases upto,
{
    if upto == i + 1 {
    } else {
        lemma_link_pref_upto(dom, c, i, upto - 1);
    }
}

/// Link preference: the cell's last anchor whose text starts with "build "
/// decides the chosen link, whatever log anchors the cell also holds.
pub proof fn lemma_link_preference(dom: Seq<NodeView>, c: int, i: int)
    requires
        is_anchor_under(dom, i, c),
        starts_with_seq(dom[i].text, "build "@),
        dom[i].href is Some,
        forall|j: int|
            i < j < dom.len() ==> !(is_anchor_under(dom, j, c) && starts_with_seq(
                #[trigger] dom[j].text,
                "build "@,
            )),
    ensures
        chosen_link(dom, c) == dom[i].href,
{
    lemma_link_pref_upto(dom, c, i, dom.len() as int);
}

} // verus!
