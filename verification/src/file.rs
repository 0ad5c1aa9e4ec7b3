//! Where the files of a workspace lie: how a reference from an HTML
//! document to a stylesheet is resolved, and where the merged stylesheet of
//! a document is kept.

use vstd::prelude::*;
use crate::error::{MetadataError, MetadataErrorView};
use crate::html::html_commands::{get_css_files, link_targets};
use crate::html::html_tokens;
use crate::keyed::views;
use crate::metadata::css_metadata::{get_metadata_files, records_of, CssMetaData, CssMetaDataView};
use crate::metadata::file_metadata::{
    file_of, formatted_styles, formatted_text, is_formatted_merge, line_total, lines_match,
    FormattedCssFile,
};
use crate::text::{lemma_texts_push, texts};
use crate::path::{
    chars_absolute, clone_chars, components, find_separator, has_extension, is_absolute, is_rooted,
    join_parts, parts_begin_with, parts_view, path_extension, path_starts_with, path_text,
    replace_extension, separator_of, split_components, starts_at_root, text_of, to_chars,
    with_extension,
};

verus! {

/// The folder of the workspace metadata, below the root of the workspace.
pub const METADATA_PATH: &'static str = ".bhc/.meta/meta.json";

/// The folder of the records of stylesheets.
pub const CSS_METADATA_PATH: &'static str = ".bhc/.meta/css";

/// The folder of the records of HTML documents.
pub const HTML_METADATA_PATH: &'static str = ".bhc/.meta/html";

/// The folder of the stylesheets that several documents share.
pub const SHARED_PATH: &'static str = ".bhc/.shared";

/// The folder of the merged stylesheets, which mirrors the workspace.
pub const VIRTUAL_PATH: &'static str = ".bhc/.virtual";

/// The extension of HTML documents.
pub const EXT_HTML: &'static str = "html";

/// The extension of stylesheets.
pub const EXT_CSS: &'static str = "css";

/// Whether `part` is `..`, the step to the parent folder.
pub open spec fn is_parent_step(part: Seq<char>) -> bool {
    part == seq!['.', '.']
}

/// Whether `part` is `.`, the step that stays in the folder.
pub open spec fn is_here_step(part: Seq<char>) -> bool {
    part == seq!['.']
}

/// The number of steps to a parent folder among `parts`.
pub open spec fn climbs(parts: Seq<Seq<char>>) -> nat
    decreases parts.len(),
{
    if parts.len() == 0 {
        0
    } else if is_parent_step(parts.last()) {
        climbs(parts.drop_last()) + 1
    } else {
        climbs(parts.drop_last())
    }
}

/// The components of `parts` that name a folder or a file, in order.
pub open spec fn descents(parts: Seq<Seq<char>>) -> Seq<Seq<char>>
    decreases parts.len(),
{
    if parts.len() == 0 {
        Seq::empty()
    } else if is_parent_step(parts.last()) || is_here_step(parts.last()) {
        descents(parts.drop_last())
    } else {
        descents(parts.drop_last()).push(parts.last())
    }
}

/// The folder that the file `path` lies in, as components.
pub open spec fn folder_of(path: Seq<char>) -> Seq<Seq<char>> {
    if components(path).len() == 0 {
        Seq::empty()
    } else {
        components(path).drop_last()
    }
}

/// The path that the relative `reference` names, seen from the document
/// `document`: each `..` of the reference leaves one folder of the
/// document's folder, and the other components are added to what is left.
/// `None` where the reference climbs above the root. The result is written
/// with the separator of the document.
pub open spec fn resolved(document: Seq<char>, reference: Seq<char>) -> Option<Seq<char>> {
    let folder = folder_of(document);
    let up = climbs(components(reference));
    if up > folder.len() {
        None
    } else {
        Some(
            path_text(
                is_rooted(document),
                folder.take(folder.len() - up) + descents(components(reference)),
                separator_of(document),
            ),
        )
    }
}

/// The absolute path of the stylesheet that `document` refers to as
/// `reference`: an absolute reference to a file that exists stays as it is;
/// a relative reference is resolved against the folder of the document;
/// anything else is an error.
pub open spec fn absolute_path_of(
    document: Seq<char>,
    reference: Seq<char>,
    exists: bool,
) -> Result<Seq<char>, MetadataErrorView> {
    if is_absolute(reference) && exists {
        Ok(reference)
    } else if !is_absolute(reference) && resolved(document, reference) is Some {
        Ok(resolved(document, reference)->0)
    } else {
        Err(MetadataErrorView::PathResolution { path: reference })
    }
}

/// Whether `part` is `..`.
fn steps_up(part: &Vec<char>) -> (r: bool)
    ensures
        r == is_parent_step(part@),
{
    let r = part.len() == 2 && part[0] == '.' && part[1] == '.';
    assert(r ==> part@ =~= seq!['.', '.']);
    r
}

/// Whether `part` is `.`.
fn stays_here(part: &Vec<char>) -> (r: bool)
    ensures
        r == is_here_step(part@),
{
    let r = part.len() == 1 && part[0] == '.';
    assert(r ==> part@ =~= seq!['.']);
    r
}

/// Finds the absolute path of the stylesheet that the HTML document
/// `document_path` refers to as `css_path`. `css_exists` says whether
/// `css_path` names a file that exists.
pub fn find_absolute_path(document_path: &str, css_path: &str, css_exists: bool) -> (r: Result<
    String,
    MetadataError,
>)
    ensures
        match r {
            Ok(path) => absolute_path_of(document_path@, css_path@, css_exists) == Ok::<
                Seq<char>,
                MetadataErrorView,
            >(path@),
            Err(error) => absolute_path_of(document_path@, css_path@, css_exists) == Err::<
                Seq<char>,
                MetadataErrorView,
            >(error@),
        },
{
    let reference = to_chars(css_path);
    let absolute = chars_absolute(&reference);
    if absolute && css_exists {
        return Ok(text_of(&reference));
    }
    if absolute {
        return Err(MetadataError::PathResolution { path: text_of(&reference) });
    }
    let document = to_chars(document_path);
    let mut folder = split_components(&document);
    if folder.len() > 0 {
        let ghost before = parts_view(folder@);
        folder.pop();
        assert(parts_view(folder@) =~= before.drop_last());
    }
    let steps = split_components(&reference);
    let ghost start = parts_view(folder@);
    let ghost all = parts_view(steps@);
    let mut added: Vec<Vec<char>> = Vec::new();
    let mut i: usize = 0;
    assert(all.take(0) =~= Seq::empty());
    assert(parts_view(added@) =~= Seq::empty());
    assert(start.take(start.len() as int) =~= start);
    while i < steps.len()
        invariant
            i <= steps.len(),
            all == parts_view(steps@),
            all == components(css_path@),
            reference@ == css_path@,
            !is_absolute(css_path@),
            start == folder_of(document_path@),
            climbs(all.take(i as int)) <= start.len(),
            parts_view(folder@) == start.take(start.len() - climbs(all.take(i as int))),
            parts_view(added@) == descents(all.take(i as int)),
        decreases steps.len() - i,
    {
        let step = &steps[i];
        assert(all.take(i + 1).drop_last() =~= all.take(i as int));
        assert(all.take(i + 1).last() == step@);
        if steps_up(step) {
            if folder.len() == 0 {
                proof {
                    lemma_climbs_grow(all, i + 1);
                    assert(parts_view(folder@).len() == 0);
                    assert(climbs(all.take(i as int)) == start.len());
                    assert(climbs(all.take(i + 1)) == climbs(all.take(i as int)) + 1);
                    assert(resolved(document_path@, css_path@) is None);
                }
                return Err(MetadataError::PathResolution { path: text_of(&reference) });
            }
            let ghost before = parts_view(folder@);
            folder.pop();
            assert(parts_view(folder@) =~= before.drop_last());
            assert(parts_view(folder@) =~= start.take(
                start.len() - climbs(all.take(i + 1)),
            ));
        } else if !stays_here(step) {
            let ghost before = parts_view(added@);
            added.push(clone_chars(step));
            assert(parts_view(added@) =~= before.push(step@));
        }
        i += 1;
    }
    assert(all.take(i as int) =~= all);
    let ghost kept = parts_view(folder@);
    let ghost more = parts_view(added@);
    folder.append(&mut added);
    assert(parts_view(folder@) =~= kept + more);
    let separator = find_separator(&document);
    let path = join_parts(starts_at_root(&document), &folder, separator);
    Ok(text_of(&path))
}

/// A longer run of steps climbs no less than a part of it.
proof fn lemma_climbs_grow(parts: Seq<Seq<char>>, i: int)
    requires
        0 <= i <= parts.len(),
    ensures
        climbs(parts.take(i)) <= climbs(parts),
    decreases parts.len() - i,
{
    if i < parts.len() {
        lemma_climbs_grow(parts, i + 1);
        assert(parts.take(i + 1).drop_last() =~= parts.take(i));
    } else {
        assert(parts.take(i) =~= parts);
    }
}

/// The place of the merged stylesheet of the document `file` of the
/// workspace `workspace`: below the folder of the merged stylesheets, under
/// the path that the document has in the workspace, with the extension
/// `css`. Empty where the document lies outside the workspace.
pub open spec fn virtual_path(file: Seq<char>, workspace: Seq<char>) -> Seq<char> {
    if !path_starts_with(file, workspace) {
        Seq::empty()
    } else {
        let parts = components(workspace) + components(VIRTUAL_PATH@) + components(file).skip(
            components(workspace).len() as int,
        );
        if parts.len() == 0 {
            Seq::empty()
        } else {
            path_text(
                is_rooted(workspace),
                parts.drop_last().push(with_extension(parts.last(), EXT_CSS@)),
                separator_of(workspace),
            )
        }
    }
}

/// Gives the place where the merged stylesheet of an HTML document is
/// kept. Such a file is made for a document that refers to more than one
/// stylesheet.
pub fn get_full_path(file_path: &str, workspace_path: &str) -> (r: String)
    ensures
        r@ == virtual_path(file_path@, workspace_path@),
{
    let file = to_chars(file_path);
    let workspace = to_chars(workspace_path);
    let file_parts = split_components(&file);
    let mut parts = split_components(&workspace);
    if starts_at_root(&file) != starts_at_root(&workspace) || !parts_begin_with(
        &file_parts,
        &parts,
    ) {
        return String::new();
    }
    let ghost base = parts_view(parts@);
    let ghost inner = parts_view(file_parts@).skip(base.len() as int);
    let depth = parts.len();
    let mut folder = split_components(&to_chars(VIRTUAL_PATH));
    let ghost middle = parts_view(folder@);
    parts.append(&mut folder);
    let mut i: usize = depth;
    while i < file_parts.len()
        invariant
            depth <= i <= file_parts.len(),
            depth == base.len(),
            inner == parts_view(file_parts@).skip(depth as int),
            parts_view(parts@) == base + middle + inner.take(i - depth),
        decreases file_parts.len() - i,
    {
        let ghost before = parts_view(parts@);
        parts.push(clone_chars(&file_parts[i]));
        assert(parts_view(parts@) =~= before.push(file_parts@[i as int]@));
        i += 1;
    }
    assert(inner.take(i - depth) =~= inner);
    if parts.len() == 0 {
        return String::new();
    }
    let ghost whole = parts_view(parts@);
    let last = parts.pop().unwrap();
    assert(parts_view(parts@) =~= whole.drop_last());
    let ghost front = parts_view(parts@);
    let renamed = replace_extension(&last, &to_chars(EXT_CSS));
    parts.push(renamed);
    assert(parts_view(parts@) =~= front.push(with_extension(whole.last(), EXT_CSS@)));
    let path = join_parts(starts_at_root(&workspace), &parts, find_separator(&workspace));
    text_of(&path)
}

/// Whether `path` names an HTML document or a stylesheet.
pub open spec fn is_web_document(path: Seq<char>) -> bool {
    path_extension(path) == Some(EXT_HTML@) || path_extension(path) == Some(EXT_CSS@)
}

/// Whether one of `file_paths` names an HTML document or a stylesheet.
pub fn contains_web_documents(file_paths: &Vec<String>) -> (r: bool)
    ensures
        r == exists|i: int| 0 <= i < file_paths.len() && is_web_document(#[trigger] file_paths@[i]@),
{
    let mut i: usize = 0;
    while i < file_paths.len()
        invariant
            i <= file_paths.len(),
            forall|j: int| 0 <= j < i ==> !is_web_document(#[trigger] file_paths@[j]@),
        decreases file_paths.len() - i,
    {
        let path = file_paths[i].as_str();
        if has_extension(path, EXT_HTML) || has_extension(path, EXT_CSS) {
            return true;
        }
        i += 1;
    }
    false
}

/// Whether the file at position `i` is said to exist.
pub open spec fn exists_at(exists: Seq<bool>, i: int) -> bool {
    0 <= i < exists.len() && exists[i]
}

/// The absolute paths of the stylesheets that `document` refers to as
/// `references`, in order; `exists` says of each reference whether it names
/// a file that exists. Where references cannot be resolved, the error of
/// the last of them.
pub open spec fn resolved_all(
    document: Seq<char>,
    references: Seq<Seq<char>>,
    exists: Seq<bool>,
) -> Result<Seq<Seq<char>>, MetadataErrorView>
    decreases references.len(),
{
    if references.len() == 0 {
        Ok(Seq::empty())
    } else {
        match absolute_path_of(
            document,
            references.last(),
            exists_at(exists, references.len() - 1),
        ) {
            Err(error) => Err(error),
            Ok(path) => match resolved_all(document, references.drop_last(), exists) {
                Ok(paths) => Ok(paths.push(path)),
                Err(error) => Err(error),
            },
        }
    }
}

/// Resolves the references `references` that the document at
/// `document_path` makes to stylesheets.
pub fn resolve_references(document_path: &str, references: &Vec<String>, exists: &Vec<bool>) -> (r:
    Result<Vec<String>, MetadataError>)
    ensures
        match r {
            Ok(paths) => resolved_all(document_path@, texts(references@), exists@) == Ok::<
                Seq<Seq<char>>,
                MetadataErrorView,
            >(texts(paths@)),
            Err(error) => resolved_all(document_path@, texts(references@), exists@) == Err::<
                Seq<Seq<char>>,
                MetadataErrorView,
            >(error@),
        },
{
    let ghost all = texts(references@);
    let mut css_vec: Vec<String> = Vec::new();
    let mut failure: Option<MetadataError> = None;
    let mut i: usize = 0;
    assert(texts(css_vec@) =~= Seq::empty());
    while i < references.len()
        invariant
            i <= references.len(),
            all == texts(references@),
            match failure {
                None => resolved_all(document_path@, all.take(i as int), exists@) == Ok::<
                    Seq<Seq<char>>,
                    MetadataErrorView,
                >(texts(css_vec@)),
                Some(error) => resolved_all(document_path@, all.take(i as int), exists@) == Err::<
                    Seq<Seq<char>>,
                    MetadataErrorView,
                >(error@),
            },
        decreases references.len() - i,
    {
        assert(all.take(i + 1).drop_last() =~= all.take(i as int));
        let known = i < exists.len() && exists[i];
        match find_absolute_path(document_path, references[i].as_str(), known) {
            Ok(path) => {
                if failure.is_none() {
                    proof {
                        lemma_texts_push(css_vec@, path);
                    }
                    css_vec.push(path);
                }
            },
            Err(error) => {
                failure = Some(error);
            },
        }
        i += 1;
    }
    assert(all.take(i as int) =~= all);
    match failure {
        Some(error) => Err(error),
        None => Ok(css_vec),
    }
}

/// The absolute paths of the stylesheets that the HTML document at
/// `absolute_path_of_html` with the text `file_contents` refers to.
/// `exists` says of each reference of the document, in the order in which
/// `get_css_files` gives them, whether it names a file that exists.
pub fn get_css_file_paths(absolute_path_of_html: &str, file_contents: &str, exists: &Vec<bool>) -> (r:
    Result<Vec<String>, MetadataError>)
    ensures
        match r {
            Ok(paths) => resolved_all(
                absolute_path_of_html@,
                link_targets(html_tokens(file_contents@)),
                exists@,
            ) == Ok::<Seq<Seq<char>>, MetadataErrorView>(texts(paths@)),
            Err(error) => resolved_all(
                absolute_path_of_html@,
                link_targets(html_tokens(file_contents@)),
                exists@,
            ) == Err::<Seq<Seq<char>>, MetadataErrorView>(error@),
        },
{
    let contents = String::from_str(file_contents);
    let references = get_css_files(&contents);
    resolve_references(absolute_path_of_html, &references, exists)
}

/// The stylesheet to show for an HTML document.
#[derive(Debug, PartialEq, Eq)]
pub struct CssProjection {
    /// The merged view of the stylesheets of the document. Its path is the
    /// place of the file to show.
    pub file: FormattedCssFile,
    /// The text to save at that place before it is shown: that of the merged
    /// stylesheet of a document with several stylesheets. `None` for a
    /// document with one stylesheet, which is shown as it is.
    pub virtual_text: Option<String>,
}

/// Decides what to show for the HTML document at `file_path` of the
/// workspace at `workspace_path`, whose text is `file_contents`.
/// `exists` says of each reference of the document whether it names a file
/// that exists, and `metadata_files` are the records of the stylesheets of
/// the workspace.
///
/// A document without stylesheets shows nothing. A document with one
/// stylesheet shows that stylesheet itself. A document with several shows
/// their merged view, which is to be saved in the folder of merged
/// stylesheets.
pub fn get_css_file(
    file_path: &str,
    workspace_path: &str,
    file_contents: &str,
    exists: &Vec<bool>,
    metadata_files: Vec<CssMetaData>,
) -> (r: Result<Option<CssProjection>, MetadataError>)
    ensures
        match resolved_all(file_path@, link_targets(html_tokens(file_contents@)), exists@) {
            Err(error) => r matches Err(e) && e@ == error,
            Ok(paths) => shows(file_path@, workspace_path@, paths, views(metadata_files@), r),
        },
{
    let css_files = match get_css_file_paths(file_path, file_contents, exists) {
        Ok(value) => value,
        Err(error) => {
            return Err(error);
        },
    };
    show_css_files(file_path, workspace_path, &css_files, metadata_files)
}

/// What is shown for the document `file_path` of the workspace
/// `workspace_path`, which refers to the stylesheets at `paths`, of which
/// `records` are the records: nothing for a document without stylesheets;
/// an error where none of its stylesheets has a record, or where the merged
/// view has more lines than can be numbered; else the merged view of the
/// records of its stylesheets. For a document with one stylesheet the view
/// has the path of that stylesheet, and nothing is to be saved; for a
/// document with several the view has its place in the folder of merged
/// stylesheets, and its text is to be saved there.
pub open spec fn shows(
    file_path: Seq<char>,
    workspace_path: Seq<char>,
    paths: Seq<Seq<char>>,
    records: Seq<CssMetaDataView>,
    r: Result<Option<CssProjection>, MetadataError>,
) -> bool {
    let found = records_of(records, paths);
    if paths.len() == 0 {
        r matches Ok(None)
    } else if found.len() == 0 {
        r matches Err(e) && e@ == (MetadataErrorView::NoRecord { path: file_path })
    } else if line_total(formatted_styles(found)) > u32::MAX {
        r matches Err(e) && e@ == MetadataErrorView::TooManyLines
    } else {
        &&& r matches Ok(Some(shown))
        &&& shown.file@.included_files == Seq::new(found.len(), |i: int| file_of(found[i]))
        &&& shown.file@.styles == formatted_styles(found)
        &&& is_formatted_merge(shown.file@.styles, found)
        &&& lines_match(shown.file@.lines, shown.file@.styles)
        &&& paths.len() == 1 ==> shown.virtual_text is None && shown.file@.absolute_path == paths[0]
        &&& paths.len() > 1 ==> shown.file@.absolute_path == virtual_path(
            file_path,
            workspace_path,
        ) && (shown.virtual_text matches Some(text) && text@ == formatted_text(
            shown.file@.styles,
        ))
    }
}

/// A document that refers to one stylesheet is shown that stylesheet
/// itself: the view has the path of the stylesheet, not a place in the
/// folder of merged stylesheets, and nothing is to be saved. It is shown
/// where the stylesheet has a record and the lines of the view can be
/// numbered; otherwise the outcome is an error.
pub proof fn lemma_single_stylesheet(
    file_path: Seq<char>,
    workspace_path: Seq<char>,
    paths: Seq<Seq<char>>,
    records: Seq<CssMetaDataView>,
    r: Result<Option<CssProjection>, MetadataError>,
)
    requires
        paths.len() == 1,
        shows(file_path, workspace_path, paths, records, r),
    ensures
        r is Ok <==> records_of(records, paths).len() > 0 && line_total(
            formatted_styles(records_of(records, paths)),
        ) <= u32::MAX,
        r matches Ok(shown) ==> (shown matches Some(css) && css.virtual_text is None
            && css.file@.absolute_path == paths[0] && css.file@.included_files == Seq::new(
            records_of(records, paths).len(),
            |i: int| file_of(records_of(records, paths)[i]),
        )),
{
}

/// Decides what to show for the HTML document at `file_path` of the
/// workspace at `workspace_path`, which refers to the stylesheets at
/// `css_files`; `metadata_files` are the records of the stylesheets of the
/// workspace.
pub fn show_css_files(
    file_path: &str,
    workspace_path: &str,
    css_files: &Vec<String>,
    metadata_files: Vec<CssMetaData>,
) -> (r: Result<Option<CssProjection>, MetadataError>)
    ensures
        shows(file_path@, workspace_path@, texts(css_files@), views(metadata_files@), r),
{
    if css_files.len() == 0 {
        return Ok(None);
    }
    let metadata = match get_metadata_files(css_files, metadata_files) {
        Some(metadata) => metadata,
        None => {
            return Err(MetadataError::NoRecord { path: String::from_str(file_path) });
        },
    };
    let mut formatted_file = match FormattedCssFile::try_generate_formatted_file(&metadata) {
        Some(file) => file,
        None => {
            return Err(MetadataError::TooManyLines);
        },
    };
    assert(texts(css_files@)[0] == css_files@[0]@);
    if css_files.len() == 1 {
        formatted_file.absolute_path = css_files[0].clone();
        Ok(Some(CssProjection { file: formatted_file, virtual_text: None }))
    } else {
        let css_string = formatted_file.to_css_string();
        formatted_file.absolute_path = get_full_path(file_path, workspace_path);
        Ok(Some(CssProjection { file: formatted_file, virtual_text: Some(css_string) }))
    }
}

} // verus!
