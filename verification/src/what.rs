//! `what`: the MATLAB-related files and folders of a folder, by kind. The
//! folder is read by the caller; each entry is classified here.

use vstd::prelude::*;
use crate::descriptor::{
    error_descriptor, host_gpu_spec, param, signature, unfused_spec, BuiltinCompletionPolicy,
    BuiltinDescriptor, BuiltinErrorDescriptor, BuiltinFusionSpec, BuiltinGpuSpec,
    BuiltinOutputMode, BuiltinParamArity, BuiltinParamType,
};
use crate::error::{descriptor_error, descriptor_error_with_message, opt_view, RuntimeError};
use crate::text::{ascii_fold, chars_to_string, str_chars, trailing_ws_start, trim_chars, trim_spec};
use crate::value::Value;
use crate::sorting::{ascending, sort_texts, texts};

verus! {

/// The buckets of a listing.
#[derive(PartialEq, Eq, Structural, Clone, Copy, Debug)]
pub enum Bucket {
    M,
    Mat,
    Mex,
    Mlx,
    Mlapp,
    Classes,
    Packages,
}

/// Entry names of a folder, by kind.
pub struct WhatListing {
    pub m: Vec<String>,
    pub mat: Vec<String>,
    pub mex: Vec<String>,
    pub mlx: Vec<String>,
    pub mlapp: Vec<String>,
    pub classes: Vec<String>,
    pub packages: Vec<String>,
}

impl WhatListing {
    pub fn new() -> (l: WhatListing)
        ensures
            l.bucket(Bucket::M).len() == 0,
            l.bucket(Bucket::Mat).len() == 0,
            l.bucket(Bucket::Mex).len() == 0,
            l.bucket(Bucket::Mlx).len() == 0,
            l.bucket(Bucket::Mlapp).len() == 0,
            l.bucket(Bucket::Classes).len() == 0,
            l.bucket(Bucket::Packages).len() == 0,
    {
        WhatListing {
            m: Vec::new(),
            mat: Vec::new(),
            mex: Vec::new(),
            mlx: Vec::new(),
            mlapp: Vec::new(),
            classes: Vec::new(),
            packages: Vec::new(),
        }
    }

    /// Names held in bucket `b`.
    pub open spec fn bucket(&self, b: Bucket) -> Seq<Seq<char>> {
        let v = match b {
            Bucket::M => self.m,
            Bucket::Mat => self.mat,
            Bucket::Mex => self.mex,
            Bucket::Mlx => self.mlx,
            Bucket::Mlapp => self.mlapp,
            Bucket::Classes => self.classes,
            Bucket::Packages => self.packages,
        };
        v@.map_values(|s: String| s@)
    }
}

/// Position just after the last `.` of `s`, if it has one.
pub open spec fn last_dot_end(s: Seq<char>) -> Option<int>
    decreases s.len(),
{
    if s.len() == 0 {
        None
    } else if s.last() == '.' {
        Some(s.len() as int)
    } else {
        last_dot_end(s.drop_last())
    }
}

/// `s` equals `t` after folding ASCII letters to lower case.
pub open spec fn ascii_lower_eq(s: Seq<char>, t: Seq<char>) -> bool {
    s.len() == t.len() && forall|i: int| 0 <= i < s.len() ==> ascii_fold(#[trigger] s[i]) == t[i] as u32
}

/// Where an entry goes: folders `@Name` into classes (as `Name`) and `+name`
/// into packages (as `name`); files by extension (after the last dot,
/// ignoring ASCII case): `m`, `mat`, `mlx`, `mlapp`, and anything starting
/// with `mex`. Everything else is left out.
pub open spec fn classify_spec(name: Seq<char>, is_dir: bool) -> Option<(Bucket, Seq<char>)> {
    if is_dir {
        if name.len() > 1 && name[0] == '@' {
            Some((Bucket::Classes, name.drop_first()))
        } else if name.len() > 1 && name[0] == '+' {
            Some((Bucket::Packages, name.drop_first()))
        } else {
            None
        }
    } else {
        match last_dot_end(name) {
            None => None,
            Some(k) => {
                let ext = name.skip(k);
                if ascii_lower_eq(ext, seq!['m']) {
                    Some((Bucket::M, name))
                } else if ascii_lower_eq(ext, seq!['m', 'a', 't']) {
                    Some((Bucket::Mat, name))
                } else if ascii_lower_eq(ext, seq!['m', 'l', 'x']) {
                    Some((Bucket::Mlx, name))
                } else if ascii_lower_eq(ext, seq!['m', 'l', 'a', 'p', 'p']) {
                    Some((Bucket::Mlapp, name))
                } else if ext.len() >= 3 && ascii_lower_eq(ext.take(3), seq!['m', 'e', 'x']) {
                    Some((Bucket::Mex, name))
                } else {
                    None
                }
            },
        }
    }
}

fn ascii_lower_matches(s: &[char], from: usize, t: &[char]) -> (r: bool)
    requires
        from <= s@.len(),
    ensures
        r == ascii_lower_eq(s@.skip(from as int), t@),
{
    if s.len() - from != t.len() {
        return false;
    }
    let mut i: usize = 0;
    let slen = s.len();
    while i < t.len()
        invariant
            slen == s@.len(),
            from + t@.len() == s@.len(),
            i <= t@.len(),
            forall|k: int| 0 <= k < i ==> ascii_fold(#[trigger] s@[from + k]) == t@[k] as u32,
        decreases t@.len() - i,
    {
        let c = s[from + i];
        let folded: u32 = if 'A' <= c && c <= 'Z' { c as u32 + 32 } else { c as u32 };
        if folded != t[i] as u32 {
            assert(ascii_fold(s@.skip(from as int)[i as int]) != t@[i as int] as u32);
            return false;
        }
        i = i + 1;
    }
    proof {
        let sk = s@.skip(from as int);
        assert forall|k: int| 0 <= k < sk.len() implies ascii_fold(#[trigger] sk[k]) == t@[k] as u32 by {
            assert(sk[k] == s@[from + k]);
        }
    }
    true
}

fn last_dot(s: &[char]) -> (r: Option<usize>)
    ensures
        match (r, last_dot_end(s@)) {
            (Some(k), Some(j)) => k == j && 1 <= k <= s@.len(),
            (None, None) => true,
            _ => false,
        },
{
    let mut i: usize = s.len();
    proof {
        assert(s@.take(s@.len() as int) =~= s@);
    }
    while i > 0
        invariant
            i <= s@.len(),
            last_dot_end(s@) == last_dot_end(s@.take(i as int)),
        decreases i,
    {
        let ghost t = s@.take(i as int);
        proof {
            assert(t.drop_last() =~= s@.take(i - 1));
        }
        if s[i - 1] == '.' {
            return Some(i);
        }
        i = i - 1;
    }
    proof {
        assert(s@.take(0) =~= Seq::<char>::empty());
    }
    None
}

fn push_into(listing: &mut WhatListing, b: Bucket, name: String)
    ensures
        forall|c: Bucket| c != b ==> final(listing).bucket(c) == old(listing).bucket(c),
        final(listing).bucket(b) == old(listing).bucket(b).push(name@),
{
    match b {
        Bucket::M => listing.m.push(name),
        Bucket::Mat => listing.mat.push(name),
        Bucket::Mex => listing.mex.push(name),
        Bucket::Mlx => listing.mlx.push(name),
        Bucket::Mlapp => listing.mlapp.push(name),
        Bucket::Classes => listing.classes.push(name),
        Bucket::Packages => listing.packages.push(name),
    }
    proof {
        assert(listing.bucket(b) =~= old(listing).bucket(b).push(name@));
    }
}

/// File one folder entry into its bucket (or nowhere).
pub fn classify(listing: &mut WhatListing, name: &str, is_dir: bool)
    ensures
        match classify_spec(name@, is_dir) {
            None => forall|c: Bucket| final(listing).bucket(c) == old(listing).bucket(c),
            Some((b, entry)) => final(listing).bucket(b) == old(listing).bucket(b).push(entry)
                && forall|c: Bucket| c != b ==> final(listing).bucket(c) == old(listing).bucket(c),
        },
{
    let chars = str_chars(name);
    let n = chars.len();
    if is_dir {
        if n > 1 && (chars[0] == '@' || chars[0] == '+') {
            let mut rest: Vec<char> = Vec::new();
            let mut i: usize = 1;
            while i < n
                invariant
                    n == chars@.len(),
                    1 <= i <= n,
                    rest@ == chars@.subrange(1, i as int),
                decreases n - i,
            {
                rest.push(chars[i]);
                i = i + 1;
            }
            proof {
                assert(rest@ =~= name@.drop_first());
            }
            let entry = chars_to_string(rest.as_slice());
            if chars[0] == '@' {
                push_into(listing, Bucket::Classes, entry);
            } else {
                push_into(listing, Bucket::Packages, entry);
            }
        }
        return;
    }
    let k = match last_dot(chars.as_slice()) {
        Some(k) => k,
        None => return,
    };
    let bucket = if ascii_lower_matches(chars.as_slice(), k, &['m']) {
        Some(Bucket::M)
    } else if ascii_lower_matches(chars.as_slice(), k, &['m', 'a', 't']) {
        Some(Bucket::Mat)
    } else if ascii_lower_matches(chars.as_slice(), k, &['m', 'l', 'x']) {
        Some(Bucket::Mlx)
    } else if ascii_lower_matches(chars.as_slice(), k, &['m', 'l', 'a', 'p', 'p']) {
        Some(Bucket::Mlapp)
    } else if n - k >= 3 && mex_prefix(chars.as_slice(), k) {
        Some(Bucket::Mex)
    } else {
        None
    };
    match bucket {
        Some(b) => push_into(listing, b, chars_to_string(chars.as_slice())),
        None => {},
    }
}

fn mex_prefix(s: &[char], from: usize) -> (r: bool)
    requires
        from + 3 <= s@.len(),
    ensures
        r == ascii_lower_eq(s@.skip(from as int).take(3), seq!['m', 'e', 'x']),
{
    let a = s[from];
    let b = s[from + 1];
    let c = s[from + 2];
    let fa: u32 = if 'A' <= a && a <= 'Z' { a as u32 + 32 } else { a as u32 };
    let fb: u32 = if 'A' <= b && b <= 'Z' { b as u32 + 32 } else { b as u32 };
    let fc: u32 = if 'A' <= c && c <= 'Z' { c as u32 + 32 } else { c as u32 };
    let matched = fa == 'm' as u32 && fb == 'e' as u32 && fc == 'x' as u32;
    proof {
        let t = s@.skip(from as int).take(3);
        assert(t[0] == a && t[1] == b && t[2] == c);
        if matched {
            assert forall|i: int| 0 <= i < 3 implies ascii_fold(#[trigger] t[i]) == seq!['m', 'e', 'x'][i] as u32 by {
                if i == 0 {} else if i == 1 {} else {}
            }
        } else {
            if fa != 'm' as u32 {
                assert(ascii_fold(t[0]) != seq!['m', 'e', 'x'][0] as u32);
            } else if fb != 'e' as u32 {
                assert(ascii_fold(t[1]) != seq!['m', 'e', 'x'][1] as u32);
            } else {
                assert(ascii_fold(t[2]) != seq!['m', 'e', 'x'][2] as u32);
            }
        }
    }
    matched
}


/// The entry is the folder itself or its parent.
pub open spec fn is_dot_entry(name: Seq<char>) -> bool {
    name == seq!['.'] || name == seq!['.', '.']
}

/// The names that the first `n` folder entries put in bucket `b`, in
/// order.
pub open spec fn bucket_names(entries: Seq<(String, bool)>, b: Bucket, n: int) -> Seq<Seq<char>>
    decreases n,
{
    if n <= 0 {
        Seq::empty()
    } else {
        let prev = bucket_names(entries, b, n - 1);
        let (name, is_dir) = entries[n - 1];
        if is_dot_entry(name@) {
            prev
        } else {
            match classify_spec(name@, is_dir) {
                Some((c, entry)) => if c == b { prev.push(entry) } else { prev },
                None => prev,
            }
        }
    }
}

fn is_dot_name(name: &str) -> (r: bool)
    ensures
        r == is_dot_entry(name@),
{
    let cs = str_chars(name);
    if cs.len() == 1 {
        let r = cs[0] == '.';
        assert(r ==> cs@ =~= seq!['.']);
        r
    } else if cs.len() == 2 {
        let r = cs[0] == '.' && cs[1] == '.';
        assert(r ==> cs@ =~= seq!['.', '.']);
        r
    } else {
        false
    }
}

/// The listing of a folder, given its entries (name, and whether it is a
/// folder): `.` and `..` are skipped, every other entry is classified, and
/// each bucket is sorted in ascending order.
pub fn scan_entries(entries: &Vec<(String, bool)>) -> (l: WhatListing)
    ensures
        forall|b: Bucket| #![trigger l.bucket(b)] ascending(l.bucket(b)) && l.bucket(b).to_multiset() == bucket_names(
            entries@,
            b,
            entries@.len() as int,
        ).to_multiset(),
{
    let mut listing = WhatListing::new();
    proof {
        assert forall|b: Bucket| listing.bucket(b) == bucket_names(entries@, b, 0) by {
            assert(listing.bucket(b) =~= Seq::<Seq<char>>::empty());
        }
    }
    let mut i: usize = 0;
    while i < entries.len()
        invariant
            i <= entries@.len(),
            forall|b: Bucket| #[trigger] listing.bucket(b) == bucket_names(entries@, b, i as int),
        decreases entries@.len() - i,
    {
        let name = &entries[i].0;
        let is_dir = entries[i].1;
        if !is_dot_name(name.as_str()) {
            classify(&mut listing, name.as_str(), is_dir);
        }
        i = i + 1;
    }
    let WhatListing { m, mat, mex, mlx, mlapp, classes, packages } = listing;
    let sorted = WhatListing {
        m: sort_texts(m),
        mat: sort_texts(mat),
        mex: sort_texts(mex),
        mlx: sort_texts(mlx),
        mlapp: sort_texts(mlapp),
        classes: sort_texts(classes),
        packages: sort_texts(packages),
    };
    proof {
        assert forall|b: Bucket| #![trigger sorted.bucket(b)] ascending(sorted.bucket(b)) && sorted.bucket(b).to_multiset()
            == bucket_names(entries@, b, entries@.len() as int).to_multiset() by {
            match b {
                Bucket::M => assert(sorted.bucket(b) == texts(sorted.m@) && listing.bucket(b) == texts(m@)),
                Bucket::Mat => assert(sorted.bucket(b) == texts(sorted.mat@) && listing.bucket(b) == texts(mat@)),
                Bucket::Mex => assert(sorted.bucket(b) == texts(sorted.mex@) && listing.bucket(b) == texts(mex@)),
                Bucket::Mlx => assert(sorted.bucket(b) == texts(sorted.mlx@) && listing.bucket(b) == texts(mlx@)),
                Bucket::Mlapp => assert(sorted.bucket(b) == texts(sorted.mlapp@) && listing.bucket(b) == texts(mlapp@)),
                Bucket::Classes => assert(sorted.bucket(b) == texts(sorted.classes@) && listing.bucket(b) == texts(classes@)),
                Bucket::Packages => assert(sorted.bucket(b) == texts(sorted.packages@) && listing.bucket(b) == texts(packages@)),
            }
        }
    }
    sorted
}


/// A relative path in every platform's syntax: nonempty, beginning with
/// neither separator (`/`, `\`), and holding no `:` (which could start a
/// drive prefix).
pub open spec fn plainly_relative(path: Seq<char>) -> bool {
    &&& path.len() > 0
    &&& path[0] != '/'
    &&& path[0] != '\\'
    &&& !path.contains(':')
}

/// Calls `Path::is_absolute`. Claimed: the empty path and a plainly
/// relative path are not absolute. Which other paths are absolute depends
/// on the platform's path syntax and is not claimed.
#[verifier::external_body]
fn path_is_absolute(path: &str) -> (r: bool)
    ensures
        path@.len() == 0 ==> !r,
        plainly_relative(path@) ==> !r,
{
    std::path::Path::new(path).is_absolute()
}

/// Calls `Path::has_root`. Claimed: a path that begins with `/`, which
/// every platform reads as a separator, has a root; the empty path and a
/// plainly relative path have none. Whether other paths have a root
/// depends on the platform's path syntax and is not claimed.
#[verifier::external_body]
fn path_has_root(path: &str) -> (r: bool)
    ensures
        path@.len() > 0 && path@[0] == '/' ==> r,
        path@.len() == 0 ==> !r,
        plainly_relative(path@) ==> !r,
{
    std::path::Path::new(path).has_root()
}

/// A folder path is taken as given when it is absolute or has a root: one
/// that begins with `/` is; the empty path and a plainly relative path are
/// not.
pub fn is_rooted_path(path: &str) -> (r: bool)
    ensures
        path@.len() > 0 && path@[0] == '/' ==> r,
        path@.len() == 0 ==> !r,
        plainly_relative(path@) ==> !r,
{
    path_is_absolute(path) || path_has_root(path)
}

/// Folder text of a `what` argument: string scalar, 1-element string array,
/// or a char row with trailing whitespace trimmed.
pub fn scalar_text(value: &Value) -> (r: Option<String>)
    ensures
        match *value {
            Value::String(s) => r matches Some(t) && t@ == s@,
            Value::StringArray(a) => if a.data@.len() == 1 {
                r matches Some(t) && t@ == a.data@[0]@
            } else {
                r is None
            },
            Value::CharArray(a) => if a.rows <= 1 {
                r matches Some(t) && t@ == a.data@.take(trailing_ws_start(a.data@))
            } else {
                r is None
            },
            _ => r is None,
        },
{
    match value {
        Value::String(text) => Some(text.clone()),
        Value::StringArray(array) => {
            if array.data.len() == 1 {
                Some(array.data[0].clone())
            } else {
                None
            }
        },
        Value::CharArray(chars) => {
            if chars.rows <= 1 {
                Some(chars_to_string(trim_end(chars.data.as_slice()).as_slice()))
            } else {
                None
            }
        },
        _ => None,
    }
}

/// `s` without trailing Unicode whitespace.
fn trim_end(s: &[char]) -> (r: Vec<char>)
    ensures
        r@ == s@.take(trailing_ws_start(s@)),
{
    let mut end: usize = s.len();
    proof {
        assert(s@.take(s@.len() as int) =~= s@);
    }
    while end > 0 && crate::text::is_whitespace(s[end - 1])
        invariant
            end <= s@.len(),
            trailing_ws_start(s@) == trailing_ws_start(s@.take(end as int)),
        decreases end,
    {
        proof {
            let t = s@.take(end as int);
            assert(t.last() == s@[end - 1]);
            assert(t.drop_last() =~= s@.take(end - 1));
        }
        end = end - 1;
    }
    proof {
        if end > 0 {
            assert(s@.take(end as int).last() == s@[end - 1]);
        } else {
            assert(s@.take(0).len() == 0);
        }
        assert(trailing_ws_start(s@) == end);
    }
    let mut r: Vec<char> = Vec::new();
    let mut i: usize = 0;
    while i < end
        invariant
            i <= end <= s@.len(),
            r@ == s@.take(i as int),
        decreases end - i,
    {
        r.push(s[i]);
        i = i + 1;
        proof {
            assert(r@ =~= s@.take(i as int));
        }
    }
    r
}

fn what_error_too_many_inputs() -> (e: BuiltinErrorDescriptor)
    ensures
        e.code@ == "RM.WHAT.TOO_MANY_INPUTS"@,
        e.identifier matches Some(i) && i@ == "RunMat:what:TooManyInputs"@,
{
    error_descriptor(
        "RM.WHAT.TOO_MANY_INPUTS",
        "RunMat:what:TooManyInputs",
        "More than one input argument is provided.",
        "what: too many input arguments",
    )
}

fn what_error_folder_arg() -> (e: BuiltinErrorDescriptor)
    ensures
        e.code@ == "RM.WHAT.FOLDER_ARG"@,
        e.identifier matches Some(i) && i@ == "RunMat:what:FolderArg"@,
{
    error_descriptor(
        "RM.WHAT.FOLDER_ARG",
        "RunMat:what:FolderArg",
        "Folder argument is not a character vector or string scalar.",
        "what: folder must be a character vector or string scalar",
    )
}

fn what_error_access() -> (e: BuiltinErrorDescriptor)
    ensures
        e.code@ == "RM.WHAT.ACCESS"@,
        e.identifier matches Some(i) && i@ == "RunMat:what:Access"@,
        e.message@ == "what: unable to read folder"@,
{
    error_descriptor(
        "RM.WHAT.ACCESS",
        "RunMat:what:Access",
        "The requested folder cannot be read.",
        "what: unable to read folder",
    )
}

/// Folder text of the arguments of `what` (empty for the current folder).
pub fn folder_argument(args: &Vec<Value>) -> (r: Result<String, RuntimeError>)
    ensures
        args@.len() > 1 ==> (r matches Err(e) && opt_view(e.identifier) == Some(
            "RunMat:what:TooManyInputs"@,
        )),
        args@.len() == 0 ==> (r matches Ok(s) && s@.len() == 0),
        args@.len() == 1 ==> (r is Ok <==> (args@[0] is String || (args@[0] matches Value::StringArray(
            a,
        ) && a.data@.len() == 1) || (args@[0] matches Value::CharArray(a) && a.rows <= 1))),
        args@.len() == 1 && r is Err ==> (r matches Err(e) && opt_view(e.identifier) == Some(
            "RunMat:what:FolderArg"@,
        )),
{
    if args.len() > 1 {
        let d = what_error_too_many_inputs();
        return Err(descriptor_error(&d, "what"));
    }
    if args.len() == 0 {
        return Ok(String::new());
    }
    match scalar_text(&args[0]) {
        Some(t) => Ok(t),
        None => {
            let d = what_error_folder_arg();
            Err(descriptor_error(&d, "what"))
        },
    }
}

/// Error for a folder that cannot be read, with the reason in parentheses.
pub fn access_error(detail: &str) -> (e: RuntimeError)
    ensures
        e.message@ == "what: unable to read folder ("@ + detail@ + ")"@,
        opt_view(e.identifier) == Some("RunMat:what:Access"@),
{
    let d = what_error_access();
    let m = String::from_str("what: unable to read folder (").concat(detail).concat(")");
    descriptor_error_with_message(&d, m, "what")
}

/// Descriptor of `what`.
pub fn what_descriptor() -> (d: BuiltinDescriptor)
    ensures
        d.labels() == seq!["s = what"@, "s = what(folder)"@],
        d.codes() == seq!["RM.WHAT.TOO_MANY_INPUTS"@, "RM.WHAT.FOLDER_ARG"@, "RM.WHAT.ACCESS"@],
        d.output_mode == BuiltinOutputMode::Fixed,
{
    let output = || param(
        "s",
        BuiltinParamType::Any,
        BuiltinParamArity::Required,
        "1x1 struct describing the MATLAB-related files in the folder.",
    );
    let s1 = signature("s = what", Vec::new(), vec![output()]);
    let s2 = signature(
        "s = what(folder)",
        vec![
            param(
                "folder",
                BuiltinParamType::StringScalar,
                BuiltinParamArity::Required,
                "Folder path to inspect.",
            ),
        ],
        vec![output()],
    );
    let d = BuiltinDescriptor {
        signatures: vec![s1, s2],
        output_mode: BuiltinOutputMode::Fixed,
        completion_policy: BuiltinCompletionPolicy::Public,
        errors: vec![what_error_too_many_inputs(), what_error_folder_arg(), what_error_access()],
    };
    assert(d.labels() =~= seq!["s = what"@, "s = what(folder)"@]);
    assert(d.codes() =~= seq!["RM.WHAT.TOO_MANY_INPUTS"@, "RM.WHAT.FOLDER_ARG"@, "RM.WHAT.ACCESS"@]);
    d
}

/// Acceleration metadata of `what`.
pub fn what_gpu_spec() -> (g: BuiltinGpuSpec)
    ensures
        g.name@ == "what"@,
{
    host_gpu_spec(
        "what",
        "io",
        "Host-only filesystem builtin. Providers do not participate; GPU-resident inputs are gathered to host memory.",
    )
}

/// Fusion metadata of `what`.
pub fn what_fusion_spec() -> (f: BuiltinFusionSpec)
    ensures
        f.name@ == "what"@,
{
    unfused_spec(
        "what",
        false,
        "I/O builtins do not participate in fusion plans; metadata registered for completeness.",
    )
}

} // verus!
