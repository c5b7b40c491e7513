//! Configuration and run setup: the shape checks on the parsed
//! configuration document, and the decisions that turn command-line
//! arguments plus file-system facts into the run's input and output
//! descriptions.
//!
//! Everything here is pure: the surrounding program performs the actual
//! file-system queries and hands their outcomes in as [`PathKind`] values,
//! and parses the configuration document into a [`ConfigValue`] tree.

use vstd::prelude::*;
use vstd::string::StringExecFns;

use crate::error::{
    usage, UniError, UniErrorData, CODE_FSIO_INPUT, CODE_FSIO_OUTPUT, CODE_INTERNAL_MISC,
    CODE_USAGE_INPUT_NOT_A_FILE, CODE_USAGE_INVALID_CONFIG_FILE, CODE_USAGE_MISSING_OUTPUT,
    CODE_USAGE_MISSING_OUTPUT_FILE_NAME,
};
use crate::paths::{base_start, path_file_name, path_parent, tmp_file_name, with_file_name};

verus! {

/// A parsed configuration document, reduced to what the shape checks read:
/// string scalars, mappings as ordered key/value pairs, and everything
/// else collapsed into one opaque case.
pub enum ConfigValue {
    Str(Vec<u8>),
    Mapping(Vec<(ConfigValue, ConfigValue)>),
    Other,
}

/// The name of the mapping the configuration document must contain: the
/// bytes of `patterns`.
pub open spec fn patterns_key() -> Seq<u8> {
    seq![112u8, 97u8, 116u8, 116u8, 101u8, 114u8, 110u8, 115u8]
}

/// The value under the first entry of `entries` whose key is the string
/// `key`, if any.
pub open spec fn map_find(entries: Seq<(ConfigValue, ConfigValue)>, key: Seq<u8>) -> Option<
    ConfigValue,
>
    decreases entries.len(),
{
    if entries.len() == 0 {
        None
    } else {
        match entries[0].0 {
            ConfigValue::Str(k) => if k@ == key {
                Some(entries[0].1)
            } else {
                map_find(entries.skip(1), key)
            },
            _ => map_find(entries.skip(1), key),
        }
    }
}

/// The pattern entries of the document: the top level must be a mapping
/// holding a mapping under the `patterns` key.
pub open spec fn config_patterns(doc: ConfigValue) -> Option<Seq<(ConfigValue, ConfigValue)>> {
    match doc {
        ConfigValue::Mapping(top) => match map_find(top@, patterns_key()) {
            Some(v) => match v {
                ConfigValue::Mapping(pats) => Some(pats@),
                _ => None,
            },
            None => None,
        },
        _ => None,
    }
}

/// The required shape: a `patterns` mapping of string to string.
pub open spec fn valid_config(doc: ConfigValue) -> bool {
    match config_patterns(doc) {
        Some(es) => forall|i: int| 0 <= i < es.len() ==> es[i].0 is Str && es[i].1 is Str,
        None => false,
    }
}

/// Is this byte string the `patterns` key?
fn is_patterns_key(k: &Vec<u8>) -> (r: bool)
    ensures
        r == (k@ == patterns_key()),
{
    if k.len() == 8 && k[0] == 112 && k[1] == 97 && k[2] == 116 && k[3] == 116 && k[4] == 101
        && k[5] == 114 && k[6] == 110 && k[7] == 115 {
        proof {
            assert(k@ =~= patterns_key());
        }
        true
    } else {
        proof {
            if k@ == patterns_key() {
                assert(k@[0] == 112 && k@[1] == 97 && k@[2] == 116 && k@[3] == 116 && k@[4] == 101
                    && k@[5] == 114 && k@[6] == 110 && k@[7] == 115);
            }
        }
        false
    }
}

/// Checks one entry of the `patterns` mapping: both the key and the value
/// must be strings; anything else is a configuration-author error.
pub fn parse_pattern_entry(raw_key: &ConfigValue, raw_value: &ConfigValue) -> (r: Result<
    (Vec<u8>, Vec<u8>),
    UniError,
>)
    ensures
        r is Ok <==> raw_key is Str && raw_value is Str,
        r matches Ok(kv) ==> kv.0@ == raw_key->Str_0@ && kv.1@ == raw_value->Str_0@,
        r matches Err(e) ==> e.wf() && e.major() == 0 && e.minor()
            == CODE_USAGE_INVALID_CONFIG_FILE,
{
    let key = match raw_key {
        ConfigValue::Str(k) => k.clone(),
        _ => {
            return Err(
                usage(String::from_str("expected a string key in the patterns mapping")).with_minor(
                    CODE_USAGE_INVALID_CONFIG_FILE,
                ),
            );
        },
    };
    let value = match raw_value {
        ConfigValue::Str(v) => v.clone(),
        _ => {
            return Err(
                usage(
                    String::from_str("expected a string value in the patterns mapping"),
                ).with_minor(CODE_USAGE_INVALID_CONFIG_FILE),
            );
        },
    };
    Ok((key, value))
}

/// Extracts the token/replacement pairs from a parsed configuration
/// document, checking its required shape: the top level is a mapping that
/// contains a `patterns` mapping of string to string. Any deviation is a
/// usage error.
pub fn parse_config(doc: &ConfigValue) -> (r: Result<Vec<(Vec<u8>, Vec<u8>)>, UniError>)
    ensures
        r is Ok <==> valid_config(*doc),
        r matches Ok(v) ==> {
            &&& config_patterns(*doc) is Some
            &&& v@.len() == config_patterns(*doc)->Some_0.len()
            &&& forall|i: int|
                0 <= i < v@.len() ==> v@[i].0@ == config_patterns(*doc)->Some_0[i].0->Str_0@ && v@[
                i].1@ == config_patterns(*doc)->Some_0[i].1->Str_0@
        },
        r matches Err(e) ==> e.wf() && e.major() == 0 && e.minor()
            == CODE_USAGE_INVALID_CONFIG_FILE,
{
    let top = match doc {
        ConfigValue::Mapping(top) => top,
        _ => {
            return Err(
                usage(
                    String::from_str("expected the top level of the configuration to be a mapping"),
                ).with_minor(CODE_USAGE_INVALID_CONFIG_FILE),
            );
        },
    };
    let n = top.len();
    let mut idx: usize = 0;
    let mut found: Option<&ConfigValue> = None;
    proof {
        assert(top@.skip(0) =~= top@);
    }
    while idx < n
        invariant_except_break
            found is None,
        invariant
            n == top@.len(),
            idx <= n,
            map_find(top@, patterns_key()) == map_find(top@.skip(idx as int), patterns_key()),
        ensures
            idx <= n,
            match found {
                Some(v) => map_find(top@, patterns_key()) == Some(*v),
                None => idx == n && map_find(top@, patterns_key()) == map_find(
                    top@.skip(n as int),
                    patterns_key(),
                ),
            },
        decreases n - idx,
    {
        let ghost pre = top@.skip(idx as int);
        match &top[idx].0 {
            ConfigValue::Str(k) => {
                if is_patterns_key(k) {
                    found = Some(&top[idx].1);
                    proof {
                        assert(pre[0] == top@[idx as int]);
                        assert(map_find(pre, patterns_key()) == Some(pre[0].1));
                    }
                    break ;
                }
                proof {
                    assert(pre.skip(1) =~= top@.skip(idx + 1));
                }
            },
            _ => {
                proof {
                    assert(pre.skip(1) =~= top@.skip(idx + 1));
                }
            },
        }
        idx = idx + 1;
    }
    proof {
        match found {
            None => {
                assert(top@.skip(n as int).len() == 0);
                assert(map_find(top@.skip(n as int), patterns_key()) is None);
            },
            Some(_) => {},
        }
    }
    let pats = match found {
        Some(v) => match v {
            ConfigValue::Mapping(pats) => pats,
            _ => {
                return Err(
                    usage(
                        String::from_str(
                            "expected the configuration to hold a mapping called patterns",
                        ),
                    ).with_minor(CODE_USAGE_INVALID_CONFIG_FILE),
                );
            },
        },
        None => {
            return Err(
                usage(
                    String::from_str(
                        "expected the configuration to hold a mapping called patterns",
                    ),
                ).with_minor(CODE_USAGE_INVALID_CONFIG_FILE),
            );
        },
    };
    let ghost es = config_patterns(*doc)->Some_0;
    let m = pats.len();
    let mut out: Vec<(Vec<u8>, Vec<u8>)> = Vec::new();
    let mut k: usize = 0;
    while k < m
        invariant
            m == pats@.len(),
            k <= m,
            es == pats@,
            config_patterns(*doc) == Some(pats@),
            out@.len() == k,
            forall|i: int|
                0 <= i < k ==> out@[i].0@ == es[i].0->Str_0@ && out@[i].1@ == es[i].1->Str_0@,
            forall|i: int| 0 <= i < k ==> es[i].0 is Str && es[i].1 is Str,
        decreases m - k,
    {
        let pair = parse_pattern_entry(&pats[k].0, &pats[k].1)?;
        out.push(pair);
        k = k + 1;
    }
    Ok(out)
}

/// The first document of a configuration file; a file with no document at
/// all is a usage error.
pub fn select_first_doc(docs: Vec<ConfigValue>) -> (r: Result<ConfigValue, UniError>)
    ensures
        r is Ok <==> docs@.len() >= 1,
        r matches Ok(d) ==> d == docs@[0],
        r matches Err(e) ==> e.wf() && e.major() == 0 && e.minor()
            == CODE_USAGE_INVALID_CONFIG_FILE,
{
    let mut docs = docs;
    if docs.len() == 0 {
        return Err(
            usage(
                String::from_str("expected at least one document in the configuration file"),
            ).with_minor(CODE_USAGE_INVALID_CONFIG_FILE),
        );
    }
    Ok(docs.swap_remove(0))
}

/// Command-line arguments, as plain values. The surrounding program fills
/// this in from its argument parser.
pub struct Args {
    pub arg_input: Option<Vec<u8>>,
    pub arg_output: Option<Vec<u8>>,
    pub flag_config: Option<Vec<u8>>,
    pub flag_config_name: Vec<u8>,
    pub flag_stdout: bool,
    pub flag_no_backup: bool,
}

/// What a file-system query found at a path. The surrounding program
/// performs the query and hands the outcome in; `Unreadable` carries the
/// query failure's message for any failure other than the path missing.
pub enum PathKind {
    Directory,
    Regular,
    OtherKind,
    Missing,
    Unreadable(String),
}

/// The byte source of a run.
pub enum Input {
    /// Source file.
    File(Vec<u8>),
    /// Standard input.
    Stdin,
}

/// The byte sink of a run.
pub enum Output {
    /// Destination file, temporary file, create backup.
    InPlace(Vec<u8>, Vec<u8>, bool),
    /// Destination file.
    OtherFile(Vec<u8>),
    /// Standard output.
    Stdout,
}

/// The error an input-path check yields for each query outcome: a usage
/// error when the path exists but is no regular file, an input I/O error
/// when it is missing or unreadable.
pub open spec fn input_check_err(kind: PathKind, e: UniError) -> bool {
    &&& e.wf()
    &&& match kind {
        PathKind::Regular => false,
        PathKind::Directory | PathKind::OtherKind => e.major() == 0 && e.minor()
            == CODE_USAGE_INPUT_NOT_A_FILE,
        PathKind::Missing | PathKind::Unreadable(_) => e.major() == 2 && e.minor()
            == CODE_FSIO_INPUT,
    }
}

/// Rejects an input path that is not a regular file.
fn verify_input_path(file_path: &Vec<u8>, kind: &PathKind) -> (r: Result<(), UniError>)
    ensures
        r is Ok <==> *kind is Regular,
        r matches Err(e) ==> input_check_err(*kind, e),
{
    match kind {
        PathKind::Regular => Ok(()),
        PathKind::Directory | PathKind::OtherKind => Err(
            usage(String::from_str("input path must be a file")).with_minor(
                CODE_USAGE_INPUT_NOT_A_FILE,
            ),
        ),
        PathKind::Missing => Err(
            UniError::new(
                CODE_FSIO_INPUT,
                UniErrorData::FsIo(file_path.clone(), String::from_str("not found")),
            ),
        ),
        PathKind::Unreadable(m) => Err(
            UniError::new(CODE_FSIO_INPUT, UniErrorData::FsIo(file_path.clone(), m.clone())),
        ),
    }
}

impl Input {
    /// Decides the run's input from the arguments: a named input path must
    /// be a regular file; without one the run reads standard input.
    /// `input_kind` is the query outcome for the named path and is ignored
    /// when none is named.
    pub fn from_args(args: &Args, input_kind: &PathKind) -> (r: Result<Input, UniError>)
        ensures
            args.arg_input is None ==> (r matches Ok(i) && i is Stdin),
            args.arg_input matches Some(p) ==> {
                &&& r is Ok <==> *input_kind is Regular
                &&& (r matches Ok(i) ==> i matches Input::File(f) && f@ == p@)
                &&& (r matches Err(e) ==> input_check_err(*input_kind, e))
            },
    {
        match &args.arg_input {
            Some(raw_input_path) => {
                verify_input_path(raw_input_path, input_kind)?;
                Ok(Input::File(raw_input_path.clone()))
            },
            None => Ok(Input::Stdin),
        }
    }

    /// The directory the configuration search starts from: the input
    /// file's parent directory, or the given working directory when the
    /// run reads standard input.
    pub fn directory(&self, cwd: &Vec<u8>) -> (r: Result<Vec<u8>, UniError>)
        ensures
            *self is Stdin ==> (r matches Ok(d) && d@ == cwd@),
            self matches Input::File(p) ==> match r {
                Ok(d) => p@.len() > 0 && (base_start(p@) > 1 && d@ == p@.take(base_start(p@) - 1)
                    || base_start(p@) == 1 && d@ == seq![47u8] || base_start(p@) == 0 && d@
                    == Seq::<u8>::empty()),
                Err(e) => e.wf() && e.major() == 9 && e.minor() == CODE_INTERNAL_MISC && p@.len()
                    == 0,
            },
    {
        match self {
            Input::Stdin => Ok(cwd.clone()),
            Input::File(buf) => {
                match path_parent(buf) {
                    Some(base) => Ok(base),
                    None => Err(
                        UniError::new(
                            CODE_INTERNAL_MISC,
                            UniErrorData::Internal(
                                String::from_str("file does not have a parent directory"),
                            ),
                        ),
                    ),
                }
            },
        }
    }
}

/// The output file name derived when only a directory is given: the final
/// component of the named input, put in place of the directory path's
/// final component. Nothing can be derived without an input file name.
pub open spec fn derived_output(dir_path: Seq<u8>, arg_input: Option<Vec<u8>>) -> Option<Seq<u8>> {
    match arg_input {
        Some(inp) => if base_start(inp@) < inp@.len() {
            Some(dir_path.take(base_start(dir_path)) + inp@.skip(base_start(inp@)))
        } else {
            None
        },
        None => None,
    }
}

/// What checking a destination path decides, for each combination of query
/// outcomes: an existing regular file is used as is; for a directory the
/// file name is derived from the input; a missing path is allowed when its
/// parent directory exists.
pub open spec fn check_output_spec(
    raw: Seq<u8>,
    kind: PathKind,
    parent_kind: PathKind,
    arg_input: Option<Vec<u8>>,
    r: Result<Output, UniError>,
) -> bool {
    match kind {
        PathKind::Regular => r matches Ok(o) && o matches Output::OtherFile(f) && f@ == raw,
        PathKind::Directory => match derived_output(raw, arg_input) {
            Some(d) => r matches Ok(o) && o matches Output::OtherFile(f) && f@ == d,
            None => r matches Err(e) && e.wf() && e.major() == 0 && e.minor()
                == CODE_USAGE_MISSING_OUTPUT_FILE_NAME,
        },
        PathKind::OtherKind => r matches Err(e) && e.wf() && e.major() == 9 && e.minor()
            == CODE_INTERNAL_MISC,
        PathKind::Missing => match parent_kind {
            PathKind::Directory => r matches Ok(o) && o matches Output::OtherFile(f) && f@ == raw,
            PathKind::Regular | PathKind::OtherKind => r matches Err(e) && e.wf() && e.major() == 0
                && e.minor() == CODE_INTERNAL_MISC,
            PathKind::Missing | PathKind::Unreadable(_) => r matches Err(e) && e.wf() && e.major()
                == 2 && e.minor() == CODE_FSIO_OUTPUT,
        },
        PathKind::Unreadable(_) => r matches Err(e) && e.wf() && e.major() == 2 && e.minor()
            == CODE_FSIO_OUTPUT,
    }
}

impl Output {
    /// Checks a named destination path. `kind` is the query outcome for the
    /// path itself, `parent_kind` the one for its parent directory; the
    /// latter matters only when the path itself is missing.
    pub fn check_output_path(
        raw_path: &Vec<u8>,
        kind: &PathKind,
        parent_kind: &PathKind,
        args: &Args,
    ) -> (r: Result<Output, UniError>)
        ensures
            check_output_spec(raw_path@, *kind, *parent_kind, args.arg_input, r),
    {
        match kind {
            PathKind::Regular => Ok(Output::OtherFile(raw_path.clone())),
            PathKind::Directory => {
                match &args.arg_input {
                    Some(raw_input) => {
                        match path_file_name(raw_input) {
                            Some(file_name) => Ok(
                                Output::OtherFile(with_file_name(raw_path, &file_name)),
                            ),
                            None => Err(
                                usage(
                                    String::from_str(
                                        "input file name needs to be known when no output file name is given",
                                    ),
                                ).with_minor(CODE_USAGE_MISSING_OUTPUT_FILE_NAME),
                            ),
                        }
                    },
                    None => Err(
                        usage(
                            String::from_str(
                                "input file name needs to be known when no output file name is given",
                            ),
                        ).with_minor(CODE_USAGE_MISSING_OUTPUT_FILE_NAME),
                    ),
                }
            },
            PathKind::OtherKind => Err(
                UniError::new(
                    CODE_INTERNAL_MISC,
                    UniErrorData::Internal(
                        String::from_str("output path is neither a file nor a directory"),
                    ),
                ),
            ),
            PathKind::Missing => {
                match parent_kind {
                    PathKind::Directory => Ok(Output::OtherFile(raw_path.clone())),
                    PathKind::Regular | PathKind::OtherKind => Err(
                        usage(String::from_str("illegal output path")).with_minor(
                            CODE_INTERNAL_MISC,
                        ),
                    ),
                    PathKind::Missing => Err(
                        UniError::new(
                            CODE_FSIO_OUTPUT,
                            UniErrorData::FsIo(raw_path.clone(), String::from_str("not found")),
                        ),
                    ),
                    PathKind::Unreadable(m) => Err(
                        UniError::new(
                            CODE_FSIO_OUTPUT,
                            UniErrorData::FsIo(raw_path.clone(), m.clone()),
                        ),
                    ),
                }
            },
            PathKind::Unreadable(m) => Err(
                UniError::new(
                    CODE_FSIO_OUTPUT,
                    UniErrorData::FsIo(raw_path.clone(), m.clone()),
                ),
            ),
        }
    }

    /// Decides the run's output from the arguments: standard output when
    /// asked for; a named destination after checking it; otherwise an
    /// in-place conversion of the named input through a hidden temporary
    /// file beside it. `input_kind` is the query outcome for the named
    /// input; `out_kind` and `out_parent_kind` the ones for the named
    /// destination and its parent.
    pub fn from_args(
        args: &Args,
        input_kind: &PathKind,
        out_kind: &PathKind,
        out_parent_kind: &PathKind,
    ) -> (r: Result<Output, UniError>)
        ensures
            args.flag_stdout ==> (r matches Ok(o) && o is Stdout),
            !args.flag_stdout ==> (args.arg_output matches Some(p) ==> check_output_spec(
                p@,
                *out_kind,
                *out_parent_kind,
                args.arg_input,
                r,
            )),
            !args.flag_stdout && args.arg_output is None ==> (args.arg_input matches Some(p)
                ==> {
                &&& (!(*input_kind is Regular) ==> (r matches Err(e) ==> input_check_err(
                    *input_kind,
                    e,
                )))
                &&& (*input_kind is Regular && base_start(p@) < p@.len() ==> (r matches Ok(o)
                    && (o matches Output::InPlace(dest, tmp, backup) && dest@ == p@ && tmp@
                    == p@.take(base_start(p@)) + (seq![46u8, 126u8] + p@.skip(base_start(p@))
                    + seq![46u8, 116u8, 109u8, 112u8]) && backup == !args.flag_no_backup)))
                &&& (*input_kind is Regular && base_start(p@) == p@.len() ==> (r matches Err(e)
                    && e.wf() && e.major() == 9 && e.minor() == CODE_INTERNAL_MISC))
                &&& (r is Ok ==> *input_kind is Regular)
            }),
            !args.flag_stdout && args.arg_output is None && args.arg_input is None ==> (r
                matches Err(e) && e.wf() && e.major() == 0 && e.minor()
                == CODE_USAGE_MISSING_OUTPUT),
    {
        if args.flag_stdout {
            return Ok(Output::Stdout);
        }
        match &args.arg_output {
            Some(raw_path) => Output::check_output_path(raw_path, out_kind, out_parent_kind, args),
            None => {
                match &args.arg_input {
                    Some(raw_input_path) => {
                        verify_input_path(raw_input_path, input_kind)?;
                        match path_file_name(raw_input_path) {
                            Some(file_name) => {
                                let tmp_name = tmp_file_name(&file_name);
                                let tmp_path = with_file_name(raw_input_path, &tmp_name);
                                Ok(
                                    Output::InPlace(
                                        raw_input_path.clone(),
                                        tmp_path,
                                        !args.flag_no_backup,
                                    ),
                                )
                            },
                            None => Err(
                                UniError::new(
                                    CODE_INTERNAL_MISC,
                                    UniErrorData::Internal(
                                        String::from_str("input file path has no file name"),
                                    ),
                                ),
                            ),
                        }
                    },
                    None => Err(
                        usage(
                            String::from_str(
                                "input file needs to be specified at the very least for an in-place conversion",
                            ),
                        ).with_minor(CODE_USAGE_MISSING_OUTPUT),
                    ),
                }
            },
        }
    }
}

/// The backup path used before an in-place replace: the destination with a
/// `.bak` suffix on its file name. A destination without a file name
/// component is an internal error.
pub fn backup_path_for(dest_path: &Vec<u8>) -> (r: Result<Vec<u8>, UniError>)
    ensures
        r is Ok <==> base_start(dest_path@) < dest_path@.len(),
        r matches Ok(b) ==> b@ == dest_path@ + seq![46u8, 98u8, 97u8, 107u8],
        r matches Err(e) ==> e.wf() && e.major() == 9 && e.minor() == CODE_INTERNAL_MISC,
{
    match path_file_name(dest_path) {
        Some(file_name) => {
            let backup_name = crate::paths::backup_file_name(&file_name);
            let b = with_file_name(dest_path, &backup_name);
            proof {
                crate::paths::lemma_base_start_bounds(dest_path@);
                assert(dest_path@.take(base_start(dest_path@)) + (dest_path@.skip(
                    base_start(dest_path@),
                ) + seq![46u8, 98u8, 97u8, 107u8]) =~= dest_path@ + seq![46u8, 98u8, 97u8, 107u8]);
            }
            Ok(b)
        },
        None => Err(
            UniError::new(
                CODE_INTERNAL_MISC,
                UniErrorData::Internal(
                    String::from_str("destination path does not have a file name component"),
                ),
            ),
        ),
    }
}

/// Everything a conversion run needs, assembled by the surrounding program
/// from the arguments, the file system and the configuration document.
pub struct Configuration {
    pub input: Input,
    pub output: Output,
    pub patterns: crate::table::PatternTable,
    pub raw_args: Args,
}

} // verus!
