//! `saveas`: the argument checks and output-path rules of figure export.
//! Rendering the figure and writing the file are the caller's.

use vstd::prelude::*;
use crate::descriptor::{error_descriptor, error_descriptor_anonymous, host_gpu_spec, param, signature, unfused_spec, BuiltinCompletionPolicy, BuiltinDescriptor, BuiltinErrorDescriptor, BuiltinFusionSpec, BuiltinGpuSpec, BuiltinOutputMode, BuiltinParamArity, BuiltinParamType};
use crate::digits::{base_text, decimal_text};
use crate::error::{descriptor_error_with_message, descriptor_error_with_source, opt_view, RuntimeError};
use crate::text::{chars_to_string, eq_ignore_ascii_case, eq_ignore_ascii_case_spec, push_all, str_chars, trim_chars, trim_spec};
use crate::value::Value;

verus! {

/// The error is a `saveas` error with this identifier and message.
pub open spec fn saveas_error_is(e: RuntimeError, ident: Option<Seq<char>>, msg: Seq<char>) -> bool {
    &&& e.message@ == msg
    &&& opt_view(e.builtin) == Some("saveas"@)
    &&& opt_view(e.identifier) == ident
}

/// `saveas: invalid input arguments: ` and the detail.
pub open spec fn invalid_input_message(detail: Seq<char>) -> Seq<char> {
    "saveas: invalid input arguments: "@ + detail
}

/// `saveas: unsupported output format: ` and the detail.
pub open spec fn unsupported_message(detail: Seq<char>) -> Seq<char> {
    "saveas: unsupported output format: "@ + detail
}

fn with_detail(head: &str, detail: &[char]) -> (s: String)
    ensures
        s@ == head@ + detail@,
{
    let mut cs = str_chars(head);
    push_all(&mut cs, detail);
    chars_to_string(cs.as_slice())
}

/// Invalid-input error of `saveas` with the given detail.
pub fn invalid_input(detail: &[char]) -> (e: RuntimeError)
    ensures
        saveas_error_is(e, Some("RunMat:saveas:InvalidInput"@), invalid_input_message(detail@)),
{
    let d = saveas_error_invalid_input();
    descriptor_error_with_message(&d, with_detail("saveas: invalid input arguments: ", detail), "saveas")
}

/// Unsupported-format error of `saveas` with the given detail.
pub fn unsupported_format(detail: &[char]) -> (e: RuntimeError)
    ensures
        saveas_error_is(e, Some("RunMat:saveas:UnsupportedFormat"@), unsupported_message(detail@)),
{
    let d = saveas_error_unsupported_format();
    descriptor_error_with_message(&d, with_detail("saveas: unsupported output format: ", detail), "saveas")
}

/// The error for a failed figure render, given the renderer's message.
pub fn render_failed(message: &str) -> (e: RuntimeError)
    ensures
        saveas_error_is(e, Some("RunMat:saveas:RenderFailed"@), "saveas: figure export failed: "@ + message@),
{
    let d = saveas_error_render();
    let m = str_chars(message);
    descriptor_error_with_message(&d, with_detail("saveas: figure export failed: ", m.as_slice()), "saveas")
}

/// The error for a failed file write, given the writer's message.
pub fn io_failed(message: &str) -> (e: RuntimeError)
    ensures
        saveas_error_is(e, Some("RunMat:saveas:IoFailure"@), "saveas: file I/O failed: "@ + message@),
{
    let d = saveas_error_io();
    let m = str_chars(message);
    descriptor_error_with_message(&d, with_detail("saveas: file I/O failed: ", m.as_slice()), "saveas")
}

/// Re-attributes an error raised while gathering an argument: an internal
/// `saveas` error (which has no identifier) carrying its message, with the
/// error it replaces kept as its source.
pub fn map_control_flow(err: RuntimeError) -> (e: RuntimeError)
    ensures
        saveas_error_is(e, None, "saveas: internal error: "@ + err.message@),
        e.source == Some(Box::new(err)),
{
    let d = saveas_error_internal();
    let m = str_chars(err.message.as_str());
    let message = with_detail("saveas: internal error: ", m.as_slice());
    descriptor_error_with_source(&d, message, "saveas", err)
}

/// `saveas` takes a figure and a file name, and optionally a format.
pub fn check_arg_count(n: usize) -> (r: Result<(), RuntimeError>)
    ensures
        2 <= n <= 3 ==> r is Ok,
        !(2 <= n <= 3) ==> (r matches Err(e) && saveas_error_is(
            e,
            Some("RunMat:saveas:InvalidInput"@),
            invalid_input_message(
                "expected saveas(fig, filename) or saveas(fig, filename, formattype), got "@ + decimal_text(n as nat)
                    + " argument(s)"@,
            ),
        )),
{
    if 2 <= n && n <= 3 {
        return Ok(());
    }
    let mut cs = str_chars("expected saveas(fig, filename) or saveas(fig, filename, formattype), got ");
    let digits = base_text(n as u64, 10);
    push_all(&mut cs, digits.as_slice());
    let t = str_chars(" argument(s)");
    push_all(&mut cs, t.as_slice());
    Err(invalid_input(cs.as_slice()))
}

/// Why a text argument could not be read.
pub enum TextArgError {
    Failed(RuntimeError),
    /// Not text at all: the caller reports it with `not_text` and the
    /// value's description.
    NotText,
}

/// The text of a string, a one-row character array or a one-element string
/// array; `what` names the argument in the error for other text shapes.
pub fn text_arg(value: &Value, what: &str) -> (r: Result<Vec<char>, TextArgError>)
    ensures
        match *value {
            Value::String(s) => r matches Ok(t) && t@ == s@,
            Value::CharArray(ca) => if ca.rows == 1 {
                r matches Ok(t) && t@ == ca.data@
            } else {
                r matches Err(TextArgError::Failed(e)) && saveas_error_is(
                    e,
                    Some("RunMat:saveas:InvalidInput"@),
                    invalid_input_message(what@ + " must be a 1-by-N character vector or string scalar"@),
                )
            },
            Value::StringArray(sa) => if sa.data@.len() == 1 {
                r matches Ok(t) && t@ == sa.data@[0]@
            } else {
                r matches Err(TextArgError::Failed(e)) && saveas_error_is(
                    e,
                    Some("RunMat:saveas:InvalidInput"@),
                    invalid_input_message(what@ + " must be a scalar string"@),
                )
            },
            _ => r matches Err(TextArgError::NotText),
        },
{
    match value {
        Value::String(s) => Ok(str_chars(s.as_str())),
        Value::CharArray(ca) => {
            if ca.rows == 1 {
                let mut t: Vec<char> = Vec::new();
                push_all(&mut t, ca.data.as_slice());
                Ok(t)
            } else {
                let mut cs = str_chars(what);
                let tail = str_chars(" must be a 1-by-N character vector or string scalar");
                push_all(&mut cs, tail.as_slice());
                Err(TextArgError::Failed(invalid_input(cs.as_slice())))
            }
        },
        Value::StringArray(sa) => {
            if sa.data.len() == 1 {
                Ok(str_chars(sa.data[0].as_str()))
            } else {
                let mut cs = str_chars(what);
                let tail = str_chars(" must be a scalar string");
                push_all(&mut cs, tail.as_slice());
                Err(TextArgError::Failed(invalid_input(cs.as_slice())))
            }
        },
        _ => Err(TextArgError::NotText),
    }
}

/// The error for an argument `what` that is not text, given the value's
/// description.
pub fn not_text(what: &str, description: &str) -> (e: RuntimeError)
    ensures
        saveas_error_is(
            e,
            Some("RunMat:saveas:InvalidInput"@),
            invalid_input_message("expected text "@ + what@ + ", got "@ + description@),
        ),
{
    let mut cs = str_chars("expected text ");
    let w = str_chars(what);
    push_all(&mut cs, w.as_slice());
    let g = str_chars(", got ");
    push_all(&mut cs, g.as_slice());
    let d = str_chars(description);
    push_all(&mut cs, d.as_slice());
    invalid_input(cs.as_slice())
}

/// The file name is not blank and holds no NUL character.
pub fn check_filename(filename: &[char]) -> (r: Result<(), RuntimeError>)
    ensures
        trim_spec(filename@).len() == 0 ==> (r matches Err(e) && saveas_error_is(
            e,
            Some("RunMat:saveas:InvalidInput"@),
            invalid_input_message("filename must be nonempty"@),
        )),
        trim_spec(filename@).len() != 0 && filename@.contains('\0') ==> (r matches Err(e) && saveas_error_is(
            e,
            Some("RunMat:saveas:InvalidInput"@),
            invalid_input_message("filename must not contain NUL bytes"@),
        )),
        trim_spec(filename@).len() != 0 && !filename@.contains('\0') ==> r is Ok,
{
    let t = trim_chars(filename);
    if t.len() == 0 {
        let d = str_chars("filename must be nonempty");
        return Err(invalid_input(d.as_slice()));
    }
    let mut i: usize = 0;
    while i < filename.len()
        invariant
            i <= filename@.len(),
            trim_spec(filename@).len() != 0,
            forall|k: int| 0 <= k < i ==> filename@[k] != '\0',
        decreases filename@.len() - i,
    {
        if filename[i] == '\0' {
            let d = str_chars("filename must not contain NUL bytes");
            return Err(invalid_input(d.as_slice()));
        }
        i = i + 1;
    }
    Ok(())
}

/// Index of the last `.` among the first `n` characters, or -1.
pub open spec fn last_dot(s: Seq<char>, n: int) -> int
    decreases n,
{
    if n <= 0 {
        -1
    } else if s[n - 1] == '.' {
        n - 1
    } else {
        last_dot(s, n - 1)
    }
}

/// The extension of a file name, as `Path::extension` documents it: none
/// without a `.`, none when the only `.` begins the name, otherwise what
/// follows the last `.`.
pub open spec fn extension_spec(name: Seq<char>) -> Option<Seq<char>> {
    let k = last_dot(name, name.len() as int);
    if k <= 0 {
        None
    } else {
        Some(name.skip(k + 1))
    }
}

/// The extension of a file name.
pub fn extension_of(name: &[char]) -> (r: Option<Vec<char>>)
    ensures
        match (r, extension_spec(name@)) {
            (Some(a), Some(b)) => a@ == b,
            (None, None) => true,
            _ => false,
        },
{
    let mut k: usize = name.len();
    while k > 0 && name[k - 1] != '.'
        invariant
            k <= name@.len(),
            last_dot(name@, name@.len() as int) == last_dot(name@, k as int),
        decreases k,
    {
        k = k - 1;
    }
    if k <= 1 {
        return None;
    }
    let mut out: Vec<char> = Vec::new();
    let mut i: usize = k;
    while i < name.len()
        invariant
            k <= i <= name@.len(),
            out@ == name@.subrange(k as int, i as int),
        decreases name@.len() - i,
    {
        out.push(name[i]);
        i = i + 1;
    }
    Some(out)
}

/// Where the figure is written, relative to the file name given.
pub enum OutputPath {
    /// The file name as given.
    Keep,
    /// The given path with its final component replaced by this name.
    Rename(Vec<char>),
}

/// The format check: an explicit format must be `png` (ignoring ASCII case
/// and surrounding whitespace).
pub open spec fn format_error(formattype: Option<Seq<char>>) -> Option<Seq<char>> {
    match formattype {
        None => None,
        Some(f) => if eq_ignore_ascii_case_spec(trim_spec(f), "png"@) {
            None
        } else {
            Some(
                unsupported_message(
                    "format '"@ + trim_spec(f) + "' is not available yet; RunMat currently supports 'png'"@,
                ),
            )
        },
    }
}

/// Checks an explicit format type.
pub fn check_format(formattype: Option<&[char]>) -> (r: Result<(), RuntimeError>)
    ensures
        match format_error(match formattype { Some(f) => Some(f@), None => None }) {
            None => r is Ok,
            Some(msg) => r matches Err(e) && saveas_error_is(e, Some("RunMat:saveas:UnsupportedFormat"@), msg),
        },
{
    match formattype {
        None => Ok(()),
        Some(f) => {
            let t = trim_chars(f);
            let png = str_chars("png");
            if eq_ignore_ascii_case(t.as_slice(), png.as_slice()) {
                Ok(())
            } else {
                let mut cs = str_chars("format '");
                push_all(&mut cs, t.as_slice());
                let tail = str_chars("' is not available yet; RunMat currently supports 'png'");
                push_all(&mut cs, tail.as_slice());
                Err(unsupported_format(cs.as_slice()))
            }
        },
    }
}

/// The PNG output path rule, given the final component of the file name
/// (`None` when it has none): a `.png` extension (any ASCII case) keeps the
/// name; another extension is refused; no extension appends `.png` to the
/// final component; with no final component the name is refused.
pub fn output_path_plan(file_name: Option<&[char]>) -> (r: Result<OutputPath, RuntimeError>)
    ensures
        match file_name {
            None => r matches Err(e) && saveas_error_is(
                e,
                Some("RunMat:saveas:InvalidInput"@),
                invalid_input_message("filename must include a file name before appending '.png'"@),
            ),
            Some(n) => match extension_spec(n@) {
                Some(ext) => if eq_ignore_ascii_case_spec(ext, "png"@) {
                    r matches Ok(OutputPath::Keep)
                } else {
                    r matches Err(e) && saveas_error_is(
                        e,
                        Some("RunMat:saveas:UnsupportedFormat"@),
                        unsupported_message(
                            "output extension '."@ + ext + "' is not available yet; RunMat currently writes PNG ('.png')"@,
                        ),
                    )
                },
                None => r matches Ok(OutputPath::Rename(new_name)) && new_name@ == n@ + ".png"@,
            },
        },
{
    match file_name {
        None => {
            let d = str_chars("filename must include a file name before appending '.png'");
            Err(invalid_input(d.as_slice()))
        },
        Some(n) => match extension_of(n) {
            Some(ext) => {
                let png = str_chars("png");
                if eq_ignore_ascii_case(ext.as_slice(), png.as_slice()) {
                    Ok(OutputPath::Keep)
                } else {
                    let mut cs = str_chars("output extension '.");
                    push_all(&mut cs, ext.as_slice());
                    let tail = str_chars("' is not available yet; RunMat currently writes PNG ('.png')");
                    push_all(&mut cs, tail.as_slice());
                    Err(unsupported_format(cs.as_slice()))
                }
            },
            None => {
                let mut new_name: Vec<char> = Vec::new();
                push_all(&mut new_name, n);
                let png = str_chars(".png");
                push_all(&mut new_name, png.as_slice());
                Ok(OutputPath::Rename(new_name))
            },
        },
    }
}

/// A file name of one plain component: nonempty, not `.` or `..`, and
/// free of the characters any platform reads as a separator or a prefix
/// (`/`, `\`, `:`).
pub open spec fn plain_file_name(s: Seq<char>) -> bool {
    &&& s.len() > 0
    &&& s != seq!['.']
    &&& s != seq!['.', '.']
    &&& !s.contains('/')
    &&& !s.contains('\\')
    &&& !s.contains(':')
}

/// Index of the last `/` among the first `n` characters, or -1.
pub open spec fn last_slash(s: Seq<char>, n: int) -> int
    decreases n,
{
    if n <= 0 {
        -1
    } else if s[n - 1] == '/' {
        n - 1
    } else {
        last_slash(s, n - 1)
    }
}

pub proof fn lemma_last_slash(s: Seq<char>, n: int)
    requires
        0 <= n <= s.len(),
    ensures
        -1 <= last_slash(s, n) < n,
        last_slash(s, n) >= 0 ==> s[last_slash(s, n)] == '/',
        forall|i: int| last_slash(s, n) < i < n ==> s[i] != '/',
    decreases n,
{
    if n > 0 && s[n - 1] != '/' {
        lemma_last_slash(s, n - 1);
    }
}

/// Index of the last `/` of `s`, or -1.
pub open spec fn last_sep(s: Seq<char>) -> int {
    last_slash(s, s.len() as int)
}

/// The final component of `s`: what follows its last `/`.
pub open spec fn final_component(s: Seq<char>) -> Seq<char> {
    s.skip(last_sep(s) + 1)
}

/// A path of plain components joined by single `/`: its final component
/// is a plain file name, and so is every component of the folder before
/// it.
pub open spec fn plain_path(s: Seq<char>) -> bool
    decreases s.len(),
{
    let k = last_sep(s);
    &&& plain_file_name(final_component(s))
    &&& (k >= 0 ==> {
        proof {
            lemma_last_slash(s, s.len() as int);
        }
        plain_path(s.take(k))
    })
}

/// A plain path, or a root `/` followed by a plain path.
pub open spec fn simple_path(s: Seq<char>) -> bool {
    ||| plain_path(s)
    ||| (s.len() > 1 && s[0] == '/' && plain_path(s.skip(1)))
}

/// A leading `/` moves the last `/` one place on.
proof fn lemma_last_slash_shift(s: Seq<char>, n: int)
    requires
        s.len() > 0,
        s[0] == '/',
        0 <= n < s.len(),
    ensures
        last_slash(s, n + 1) == last_slash(s.skip(1), n) + 1,
    decreases n,
{
    if n > 0 {
        assert(s[n] == s.skip(1)[n - 1]);
        lemma_last_slash_shift(s, n - 1);
    }
}

/// The final component of a simple path is a plain file name.
pub proof fn lemma_simple_path_final(s: Seq<char>)
    requires
        simple_path(s),
    ensures
        plain_file_name(final_component(s)),
        last_sep(s) < s.len(),
{
    lemma_last_slash(s, s.len() as int);
    if !plain_path(s) {
        let t = s.skip(1);
        lemma_last_slash_shift(s, t.len() as int);
        assert(final_component(s) =~= final_component(t));
    }
}

/// `r` is `path` with its final component replaced by `name`: the folder
/// text is kept and joined to `name` by one separator (`/`, or `\` where
/// that is the platform's separator).
pub open spec fn renamed(path: Seq<char>, name: Seq<char>, r: Seq<char>) -> bool {
    let k = last_sep(path);
    if k < 0 {
        r == name
    } else {
        &&& r.len() == k + 1 + name.len()
        &&& r.take(k) == path.take(k)
        &&& (r[k] == '/' || r[k] == '\\')
        &&& r.skip(k + 1) == name
    }
}

/// Calls `Path::file_name` on the path and converts the final component to
/// a `String`. Claimed: for a path of plain components joined by single
/// `/`, with or without a leading `/` root, the final component is the
/// text after the last `/`. Which part of
/// any other path is its final component depends on the platform's path
/// syntax and is not claimed.
#[verifier::external_body]
fn path_file_name(path: &str) -> (r: Option<String>)
    ensures
        simple_path(path@) ==> r is Some && r->0@ == final_component(path@),
{
    std::path::Path::new(path).file_name().map(|n| n.to_string_lossy().into_owned())
}

/// Calls `Path::with_file_name` and converts the path to a `String`.
/// Claimed: for a path of plain components joined by single `/`, with or
/// without a leading `/` root, and a plain name, the folder text is kept and joined to the name by one
/// separator, which is `/` or `\` as the platform's own separator is. How
/// the final component of any other path is replaced depends on the
/// platform's path syntax and is not claimed.
#[verifier::external_body]
fn path_with_file_name(path: &str, name: &str) -> (r: String)
    ensures
        simple_path(path@) && plain_file_name(name@) ==> renamed(path@, name@, r@),
{
    std::path::Path::new(path).with_file_name(name).to_string_lossy().into_owned()
}

/// The path `saveas` writes to: the format check, then the PNG output path
/// rule applied to the final component of `filename`, which is renamed when
/// `.png` is appended. For a path of plain components joined by `/`, with
/// or without a leading `/` root, the result is exact; for any other path its form depends on the platform's
/// path syntax.
pub fn resolve_output_path(filename: &str, formattype: Option<&str>) -> (r: Result<String, RuntimeError>)
    ensures
        match format_error(match formattype { Some(f) => Some(f@), None => None }) {
            Some(msg) => r matches Err(e) && saveas_error_is(e, Some("RunMat:saveas:UnsupportedFormat"@), msg),
            None => if simple_path(filename@) {
                match extension_spec(final_component(filename@)) {
                    Some(ext) => if eq_ignore_ascii_case_spec(ext, "png"@) {
                        r matches Ok(s) && s@ == filename@
                    } else {
                        r matches Err(e) && saveas_error_is(
                            e,
                            Some("RunMat:saveas:UnsupportedFormat"@),
                            unsupported_message(
                                "output extension '."@ + ext + "' is not available yet; RunMat currently writes PNG ('.png')"@,
                            ),
                        )
                    },
                    None => r matches Ok(s) && renamed(filename@, final_component(filename@) + ".png"@, s@),
                }
            } else {
                match r {
                    Ok(_) => true,
                    Err(e) => opt_view(e.builtin) == Some("saveas"@) && (opt_view(e.identifier) == Some("RunMat:saveas:UnsupportedFormat"@)
                        || opt_view(e.identifier) == Some("RunMat:saveas:InvalidInput"@)),
                }
            },
        },
{
    let fchars: Option<Vec<char>> = match formattype {
        Some(f) => Some(str_chars(f)),
        None => None,
    };
    let checked = match &fchars {
        Some(f) => check_format(Some(f.as_slice())),
        None => check_format(None),
    };
    if let Err(e) = checked {
        return Err(e);
    }
    let name = path_file_name(filename);
    let name_chars: Option<Vec<char>> = match &name {
        Some(n) => Some(str_chars(n.as_str())),
        None => None,
    };
    let plan = match &name_chars {
        Some(n) => output_path_plan(Some(n.as_slice())),
        None => output_path_plan(None),
    };
    match plan {
        Err(e) => Err(e),
        Ok(OutputPath::Keep) => Ok(String::from_str(filename)),
        Ok(OutputPath::Rename(new_name)) => {
            let s = chars_to_string(new_name.as_slice());
            proof {
                if simple_path(filename@) {
                    lemma_simple_path_final(filename@);
                    let base = final_component(filename@);
                    reveal_strlit(".png");
                    assert(s@ == base + ".png"@);
                    assert forall|c: char| c == '/' || c == '\\' || c == ':' implies !s@.contains(c) by {
                        if s@.contains(c) {
                            let k = choose|k: int| 0 <= k < s@.len() && s@[k] == c;
                            if k < base.len() {
                                assert(base[k] == c);
                            }
                        }
                    }
                }
            }
            Ok(path_with_file_name(filename, s.as_str()))
        },
    }
}

/// Acceleration metadata of `saveas`.
pub fn saveas_gpu_spec() -> (g: BuiltinGpuSpec)
    ensures
        g.name@ == "saveas"@,
{
    host_gpu_spec(
        "saveas",
        "figure-export",
        "Exports a figure through the shared plotting renderer. Handle and text arguments are gathered; figure content may still render through the shared WGPU plotting path.",
    )
}

fn saveas_error_invalid_input() -> (e: BuiltinErrorDescriptor)
    ensures
        e.code@ == "RM.SAVEAS.INVALID_INPUT"@,
        e.identifier matches Some(i) && i@ == "RunMat:saveas:InvalidInput"@,
        e.message@ == "saveas: invalid input arguments"@,
{
    error_descriptor(
        "RM.SAVEAS.INVALID_INPUT",
        "RunMat:saveas:InvalidInput",
        "Arguments are missing, malformed, or cannot be interpreted as a figure handle plus filename.",
        "saveas: invalid input arguments",
    )
}

fn saveas_error_unsupported_format() -> (e: BuiltinErrorDescriptor)
    ensures
        e.code@ == "RM.SAVEAS.UNSUPPORTED_FORMAT"@,
        e.identifier matches Some(i) && i@ == "RunMat:saveas:UnsupportedFormat"@,
        e.message@ == "saveas: unsupported output format"@,
{
    error_descriptor(
        "RM.SAVEAS.UNSUPPORTED_FORMAT",
        "RunMat:saveas:UnsupportedFormat",
        "The requested output format or file extension is not supported by the active exporter.",
        "saveas: unsupported output format",
    )
}

fn saveas_error_render() -> (e: BuiltinErrorDescriptor)
    ensures
        e.code@ == "RM.SAVEAS.RENDER"@,
        e.identifier matches Some(i) && i@ == "RunMat:saveas:RenderFailed"@,
        e.message@ == "saveas: figure export failed"@,
{
    error_descriptor(
        "RM.SAVEAS.RENDER",
        "RunMat:saveas:RenderFailed",
        "The figure renderer fails while serializing the figure (including builds without plot-core, and handles that name no live figure).",
        "saveas: figure export failed",
    )
}

fn saveas_error_io() -> (e: BuiltinErrorDescriptor)
    ensures
        e.code@ == "RM.SAVEAS.IO"@,
        e.identifier matches Some(i) && i@ == "RunMat:saveas:IoFailure"@,
        e.message@ == "saveas: file I/O failed"@,
{
    error_descriptor(
        "RM.SAVEAS.IO",
        "RunMat:saveas:IoFailure",
        "The exported bytes cannot be written to the target file.",
        "saveas: file I/O failed",
    )
}

fn saveas_error_internal() -> (e: BuiltinErrorDescriptor)
    ensures
        e.code@ == "RM.SAVEAS.INTERNAL"@,
        e.identifier is None,
        e.message@ == "saveas: internal error"@,
{
    error_descriptor_anonymous(
        "RM.SAVEAS.INTERNAL",
        "Internal runtime control-flow or conversion fails.",
        "saveas: internal error",
    )
}

/// Descriptor of `saveas`.
pub fn saveas_descriptor() -> (d: BuiltinDescriptor)
    ensures
        d.labels() == seq!["saveas(fig, filename)"@, "saveas(fig, filename, formattype)"@],
        d.codes() == seq!["RM.SAVEAS.INVALID_INPUT"@, "RM.SAVEAS.UNSUPPORTED_FORMAT"@, "RM.SAVEAS.RENDER"@, "RM.SAVEAS.IO"@, "RM.SAVEAS.INTERNAL"@],
        d.output_mode == BuiltinOutputMode::Fixed,
{
    let s0 = signature(
        "saveas(fig, filename)",
        vec![
            param(
                "fig",
                BuiltinParamType::NumericScalar,
                BuiltinParamArity::Required,
                "Figure handle (numeric scalar as returned by figure/gcf).",
            ),
            param(
                "filename",
                BuiltinParamType::StringScalar,
                BuiltinParamArity::Required,
                "Output file name; '.png' is appended when no extension is given.",
            ),
        ],
        vec![
            param(
                "ok",
                BuiltinParamType::LogicalArray,
                BuiltinParamArity::Required,
                "Internal status; saveas suppresses automatic display — the observable effect is the written file.",
            ),
        ],
    );
    let s1 = signature(
        "saveas(fig, filename, formattype)",
        vec![
            param(
                "fig",
                BuiltinParamType::NumericScalar,
                BuiltinParamArity::Required,
                "Figure handle (numeric scalar as returned by figure/gcf).",
            ),
            param(
                "filename",
                BuiltinParamType::StringScalar,
                BuiltinParamArity::Required,
                "Output file name; '.png' is appended when no extension is given.",
            ),
            param(
                "formattype",
                BuiltinParamType::StringScalar,
                BuiltinParamArity::Optional,
                "Optional explicit format; RunMat currently supports 'png'.",
            ),
        ],
        vec![
            param(
                "ok",
                BuiltinParamType::LogicalArray,
                BuiltinParamArity::Required,
                "Internal status; saveas suppresses automatic display — the observable effect is the written file.",
            ),
        ],
    );
    let d = BuiltinDescriptor {
        signatures: vec![s0, s1],
        output_mode: BuiltinOutputMode::Fixed,
        completion_policy: BuiltinCompletionPolicy::Public,
        errors: vec![saveas_error_invalid_input(), saveas_error_unsupported_format(), saveas_error_render(), saveas_error_io(), saveas_error_internal()],
    };
    assert(d.labels() =~= seq!["saveas(fig, filename)"@, "saveas(fig, filename, formattype)"@]);
    assert(d.codes() =~= seq!["RM.SAVEAS.INVALID_INPUT"@, "RM.SAVEAS.UNSUPPORTED_FORMAT"@, "RM.SAVEAS.RENDER"@, "RM.SAVEAS.IO"@, "RM.SAVEAS.INTERNAL"@]);
    d
}

/// Fusion metadata of `saveas`.
pub fn saveas_fusion_spec() -> (f: BuiltinFusionSpec)
    ensures
        f.name@ == "saveas"@,
{
    unfused_spec(
        "saveas",
        false,
        "saveas performs figure export I/O and terminates fusion graphs.",
    )
}

} // verus!
