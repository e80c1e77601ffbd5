//! Bookkeeping of the direct local LLM (GGUF) post-processing: which files
//! are accepted as models, how they are listed and imported, and how the
//! helper process's answer is turned into a result.

use vstd::prelude::*;
use vstd::utf8::{valid_utf8, decode_utf8};
use crate::text::{self, trim, ascii_lower_seq, decimal, opt_chars, strings_view};

verus! {

broadcast use vstd::string::group_string_axioms;

/// Index of the last occurrence of `x` in `s`.
pub open spec fn last_index<T>(s: Seq<T>, x: T) -> Option<int>
    decreases s.len(),
{
    if s.len() == 0 {
        None
    } else if s.last() == x {
        Some(s.len() - 1)
    } else {
        last_index(s.drop_last(), x)
    }
}

/// `name` is a single path component that is its own file name: not
/// empty, no `/`, and neither `.` nor `..` (Unix `Path::components` and
/// `Path::file_name`).
pub open spec fn plain_file_name(name: Seq<char>) -> bool {
    &&& name.len() > 0
    &&& !name.contains('/')
    &&& name != "."@
    &&& name != ".."@
}

/// `Path::extension` of a plain file name: what follows the last `.`,
/// unless that `.` is the first character.
pub open spec fn extension(name: Seq<char>) -> Option<Seq<char>> {
    match last_index(name, '.') {
        Some(i) => if i > 0 {
            Some(name.skip(i + 1))
        } else {
            None
        },
        None => None,
    }
}

/// A model file name: a plain file name whose extension is `gguf` in any
/// ASCII case.
pub open spec fn is_model_filename(name: Seq<char>) -> bool {
    plain_file_name(name) && (extension(name) matches Some(e) && ascii_lower_seq(e) == "gguf"@)
}

/// The last `x` of `a + [x] + b`, when `b` holds no `x`, is the one
/// between them.
pub proof fn lemma_last_index_before<T>(a: Seq<T>, x: T, b: Seq<T>)
    requires
        !b.contains(x),
    ensures
        last_index(a + seq![x] + b, x) == Some(a.len() as int),
    decreases b.len(),
{
    let s = a + seq![x] + b;
    if b.len() == 0 {
        assert(s.last() == x);
    } else {
        assert(s.last() == b.last());
        if b.last() == x {
            assert(b.contains(x));
        }
        assert(s.drop_last() =~= a + seq![x] + b.drop_last());
        assert(!b.drop_last().contains(x)) by {
            if b.drop_last().contains(x) {
                let k = choose|k: int| 0 <= k < b.drop_last().len() && b.drop_last()[k] == x;
                assert(b[k] == x);
            }
        }
        lemma_last_index_before(a, x, b.drop_last());
    }
}

/// A name made of a non-empty stem, a `.` and an extension that is `gguf`
/// in any ASCII case is a model file name, whatever other characters
/// (spaces, brackets, non-ASCII letters, further dots) the stem holds, as
/// long as neither part holds a `/`.
pub proof fn law_gguf_names_accepted(stem: Seq<char>, ext: Seq<char>)
    requires
        stem.len() > 0,
        !stem.contains('/'),
        ascii_lower_seq(ext) == "gguf"@,
    ensures
        is_model_filename(stem + seq!['.'] + ext),
{
    reveal_strlit("gguf");
    reveal_strlit(".");
    reveal_strlit("..");
    let name = stem + seq!['.'] + ext;
    assert("gguf"@.len() == 4);
    assert(ascii_lower_seq(ext).len() == ext.len());
    assert(!ext.contains('.') && !ext.contains('/')) by {
        if ext.contains('.') || ext.contains('/') {
            let k = choose|k: int| 0 <= k < ext.len() && (ext[k] == '.' || ext[k] == '/');
            assert(ascii_lower_seq(ext)[k] == text::ascii_lower(ext[k]));
            assert("gguf"@[k] == 'g' || "gguf"@[k] == 'u' || "gguf"@[k] == 'f');
        }
    }
    lemma_last_index_before(stem, '.', ext);
    assert(name.skip(stem.len() as int + 1) =~= ext);
    assert(!name.contains('/')) by {
        if name.contains('/') {
            let k = choose|k: int| 0 <= k < name.len() && name[k] == '/';
            if k < stem.len() {
                assert(stem[k] == '/');
            } else if k > stem.len() {
                assert(ext[k - stem.len() - 1] == '/');
            }
        }
    }
    assert(name.len() >= 6);
}

/// Whether `name` names a GGUF file directly inside the model directory.
pub fn valid_model_filename(name: &str) -> (r: bool)
    ensures
        r == is_model_filename(name@),
{
    let v = text::chars_of(name);
    proof {
        reveal_strlit(".");
        reveal_strlit("..");
        reveal_strlit("gguf");
    }
    if v.len() == 0 {
        return false;
    }
    let mut i: usize = 0;
    while i < v.len()
        invariant
            i <= v.len(),
            v@ == name@,
            forall|k: int| 0 <= k < i ==> v@[k] != '/',
        decreases v.len() - i,
    {
        if v[i] == '/' {
            assert(v@[i as int] == '/');
            assert(v@.contains('/'));
            return false;
        }
        i = i + 1;
    }
    assert(!v@.contains('/'));
    // Position of the last '.'.
    let mut j: usize = v.len();
    assert(v@.take(v@.len() as int) =~= v@);
    while j > 0 && v[j - 1] != '.'
        invariant
            j <= v.len(),
            last_index(v@, '.') == last_index(v@.take(j as int), '.'),
        decreases j,
    {
        assert(v@.take(j as int).drop_last() =~= v@.take(j - 1));
        j = j - 1;
    }
    assert(v@.take(v@.len() as int) =~= v@);
    if j == 0 {
        assert(last_index(v@.take(0), '.') is None);
        return false;
    }
    assert(last_index(v@.take(j as int), '.') == Some(j - 1));
    if j - 1 == 0 {
        return false;
    }
    let ext = text::slice_of(&v, j, v.len());
    assert(ext@ =~= v@.skip(j as int));
    let lowered = text::ascii_lower_chars(&ext);
    let gguf = text::chars_of("gguf");
    let ok = text::seq_eq(&lowered, &gguf);
    proof {
        if ok {
            assert(lowered@.len() == ext@.len());
            assert(gguf@.len() == 4);
            assert(v@.len() >= 5);
            assert(v@ != "."@ && v@ != ".."@);
        }
    }
    ok
}

/// What `String::from_utf8_lossy` makes of `bytes`: valid UTF-8 decoded,
/// each invalid sequence replaced by U+FFFD.
pub uninterp spec fn utf8_lossy(bytes: Seq<u8>) -> Seq<char>;

/// `String::from_utf8_lossy`; stated: valid UTF-8 is decoded unchanged.
#[verifier::external_body]
fn lossy_string(bytes: &[u8]) -> (r: String)
    ensures
        r@ == utf8_lossy(bytes@),
        valid_utf8(bytes@) ==> r@ == decode_utf8(bytes@),
{
    String::from_utf8_lossy(bytes).into_owned()
}

/// Most characters of helper stderr kept in a message.
pub const STDERR_CHARS: usize = 2000;

/// The helper's stderr as shown in messages: its first 2000 characters,
/// trimmed.
pub open spec fn short_stderr_of(bytes: Seq<u8>) -> Seq<char> {
    let text = utf8_lossy(bytes);
    trim(
        if text.len() <= STDERR_CHARS {
            text
        } else {
            text.take(STDERR_CHARS as int)
        },
    )
}

/// The helper's stderr as shown in messages.
pub fn short_stderr(bytes: &[u8]) -> (r: String)
    ensures
        r@ == short_stderr_of(bytes@),
        r@.len() <= STDERR_CHARS,
{
    let s = lossy_string(bytes);
    let v = text::chars_of(s.as_str());
    let n = if v.len() <= STDERR_CHARS {
        v.len()
    } else {
        STDERR_CHARS
    };
    let (a, b) = text::trim_bounds(&v, 0, n);
    proof {
        if v@.len() <= STDERR_CHARS {
            assert(v@.subrange(0, n as int) =~= v@);
        } else {
            assert(v@.subrange(0, n as int) =~= v@.take(STDERR_CHARS as int));
        }
    }
    text::string_from_chars(text::slice_of(&v, a, b).as_slice())
}

/// What the helper process printed on stdout.
#[derive(Debug)]
pub struct HelperResponse {
    pub ok: bool,
    pub text: Option<String>,
    pub error: Option<String>,
}

/// The message for stdout that is not a helper response.
pub open spec fn invalid_json_text(parse_error: Seq<char>, stderr: Seq<u8>) -> Seq<char> {
    let s = short_stderr_of(stderr);
    if s.len() == 0 {
        "Local LLM helper returned invalid JSON: "@ + parse_error
    } else {
        "Local LLM helper returned invalid JSON: "@ + parse_error + "; stderr: "@ + s
    }
}

/// The message for stdout that is not a helper response, given the parse
/// error's text.
pub fn invalid_helper_json(parse_error: &str, stderr: &[u8]) -> (r: String)
    ensures
        r@ == invalid_json_text(parse_error@, stderr@),
{
    let s = short_stderr(stderr);
    let mut v: Vec<char> = Vec::new();
    text::push_str_chars(&mut v, "Local LLM helper returned invalid JSON: ");
    text::push_str_chars(&mut v, parse_error);
    if text::chars_of(s.as_str()).len() != 0 {
        text::push_str_chars(&mut v, "; stderr: ");
        text::push_str_chars(&mut v, s.as_str());
    }
    text::string_from_chars(v.as_slice())
}

/// The error detail of a failed helper run: its own non-blank error, else
/// its stderr, else the exit status.
pub open spec fn failure_detail(
    error: Option<Seq<char>>,
    stderr: Seq<u8>,
    status_text: Seq<char>,
) -> Seq<char> {
    match error {
        Some(e) if trim(e).len() > 0 => e,
        _ => if short_stderr_of(stderr).len() > 0 {
            short_stderr_of(stderr)
        } else {
            "helper exited with status "@ + status_text
        },
    }
}

/// The result of a helper run.
pub open spec fn helper_outcome_of(
    exit_success: bool,
    status_text: Seq<char>,
    ok: bool,
    text: Option<Seq<char>>,
    error: Option<Seq<char>>,
    stderr: Seq<u8>,
) -> Result<Seq<char>, Seq<char>> {
    if !exit_success || !ok {
        Err(failure_detail(error, stderr, status_text))
    } else {
        match text {
            Some(t) if trim(t).len() > 0 => Ok(trim(t)),
            _ => Err("Local LLM helper returned an empty response"@),
        }
    }
}

/// Turns a finished helper run (exit status, parsed stdout, stderr) into
/// the post-processed text or an error.
pub fn helper_outcome(
    exit_success: bool,
    status_text: &str,
    response: HelperResponse,
    stderr: &[u8],
) -> (r: Result<String, String>)
    ensures
        match (r, helper_outcome_of(
            exit_success,
            status_text@,
            response.ok,
            opt_chars(response.text),
            opt_chars(response.error),
            stderr@,
        )) {
            (Ok(t), Ok(s)) => t@ == s,
            (Err(e), Err(s)) => e@ == s,
            _ => false,
        },
{
    if !exit_success || !response.ok {
        let own = match response.error {
            Some(e) => {
                if text::chars_of(text::trim_string(e.as_str()).as_str()).len() > 0 {
                    Some(e)
                } else {
                    None
                }
            },
            None => None,
        };
        return match own {
            Some(e) => Err(e),
            None => {
                let s = short_stderr(stderr);
                if text::chars_of(s.as_str()).len() != 0 {
                    Err(s)
                } else {
                    Err(text::concat_str("helper exited with status ", status_text))
                }
            },
        };
    }
    match response.text {
        Some(t) => {
            let trimmed = text::trim_string(t.as_str());
            if text::chars_of(trimmed.as_str()).len() != 0 {
                Ok(trimmed)
            } else {
                Err("Local LLM helper returned an empty response".to_owned())
            }
        },
        None => Err("Local LLM helper returned an empty response".to_owned()),
    }
}

/// Checks the name of a model that is about to be used.
pub fn check_model_name(model_name: &str) -> (r: Result<(), String>)
    ensures
        is_model_filename(model_name@) ==> r is Ok,
        !is_model_filename(model_name@) ==> (r matches Err(e) && e@
            == "Local LLM model must be a GGUF file in Handy's model directory"@),
{
    if valid_model_filename(model_name) {
        Ok(())
    } else {
        Err("Local LLM model must be a GGUF file in Handy's model directory".to_owned())
    }
}

/// The error for a model that is not in the model directory.
pub fn model_not_installed(model_name: &str) -> (r: String)
    ensures
        r@ == "Local LLM model is not installed: "@ + model_name@,
{
    text::concat_str("Local LLM model is not installed: ", model_name)
}

/// Checks the file name of a model that is about to be imported.
pub fn check_import_name(file_name: &str) -> (r: Result<(), String>)
    ensures
        is_model_filename(file_name@) ==> r is Ok,
        !is_model_filename(file_name@) ==> (r matches Err(e) && e@
            == "Only .gguf local LLM models are supported"@),
{
    if valid_model_filename(file_name) {
        Ok(())
    } else {
        Err("Only .gguf local LLM models are supported".to_owned())
    }
}

/// Name of the partial file an import copies into before renaming it.
pub open spec fn import_temp_name_of(file_name: Seq<char>, pid: u32) -> Seq<char> {
    "."@ + file_name + "."@ + decimal(pid as nat) + ".part"@
}

/// Name of the partial file an import of `file_name` by process `pid`
/// copies into: `.{file_name}.{pid}.part`.
pub fn import_temp_name(file_name: &str, pid: u32) -> (r: String)
    ensures
        r@ == import_temp_name_of(file_name@, pid),
{
    let mut v: Vec<char> = Vec::new();
    text::push_str_chars(&mut v, ".");
    text::push_str_chars(&mut v, file_name);
    text::push_str_chars(&mut v, ".");
    let d = text::decimal_chars(pid as u128);
    text::push_chars(&mut v, &d);
    text::push_str_chars(&mut v, ".part");
    text::string_from_chars(v.as_slice())
}

/// What `str::to_lowercase` makes of `s` (Unicode lower-case mapping).
pub uninterp spec fn unicode_lowercase(s: Seq<char>) -> Seq<char>;

/// `str::to_lowercase`; the contract names the result.
#[verifier::external_body]
fn lowercase(s: &str) -> (r: String)
    ensures
        r@ == unicode_lowercase(s@),
{
    s.to_lowercase()
}

/// `a <= b` in the order of `String`: lexicographic by character (UTF-8
/// byte order and code-point order agree).
pub open spec fn chars_le(a: Seq<char>, b: Seq<char>) -> bool
    decreases a.len(),
{
    if a.len() == 0 {
        true
    } else if b.len() == 0 {
        false
    } else if a[0] != b[0] {
        (a[0] as u32) < (b[0] as u32)
    } else {
        chars_le(a.drop_first(), b.drop_first())
    }
}

/// `x` inserted into `s` after every trailing element whose key does not
/// exceed its own (one step of a stable insertion sort by lower-cased name).
pub open spec fn insert_by_key(s: Seq<Seq<char>>, x: Seq<char>) -> Seq<Seq<char>>
    decreases s.len(),
{
    if s.len() == 0 {
        seq![x]
    } else if chars_le(unicode_lowercase(s.last()), unicode_lowercase(x)) {
        s.push(x)
    } else {
        insert_by_key(s.drop_last(), x).push(s.last())
    }
}

/// `sort_by_key(|name| name.to_lowercase())`: the stable sort of `s` by
/// lower-cased name.
pub open spec fn sort_by_lowercase(s: Seq<Seq<char>>) -> Seq<Seq<char>>
    decreases s.len(),
{
    if s.len() == 0 {
        seq![]
    } else {
        insert_by_key(sort_by_lowercase(s.drop_last()), s.last())
    }
}

/// The model file names among `s`, in order.
pub open spec fn model_names(s: Seq<Seq<char>>) -> Seq<Seq<char>>
    decreases s.len(),
{
    if s.len() == 0 {
        seq![]
    } else if is_model_filename(s.last()) {
        model_names(s.drop_last()).push(s.last())
    } else {
        model_names(s.drop_last())
    }
}

/// The listing of a model directory holding the files `s`: model file
/// names, sorted case-insensitively.
pub open spec fn model_listing(s: Seq<Seq<char>>) -> Seq<Seq<char>> {
    sort_by_lowercase(model_names(s))
}

/// Executable `chars_le`.
fn chars_le_exec(a: &Vec<char>, b: &Vec<char>) -> (r: bool)
    ensures
        r == chars_le(a@, b@),
{
    let mut i: usize = 0;
    assert(a@.skip(0) =~= a@);
    assert(b@.skip(0) =~= b@);
    while i < a.len() && i < b.len() && a[i] == b[i]
        invariant
            i <= a.len(),
            i <= b.len(),
            chars_le(a@, b@) == chars_le(a@.skip(i as int), b@.skip(i as int)),
        decreases a.len() - i,
    {
        assert(a@.skip(i as int).drop_first() =~= a@.skip(i + 1));
        assert(b@.skip(i as int).drop_first() =~= b@.skip(i + 1));
        i = i + 1;
    }
    if i == a.len() {
        true
    } else if i == b.len() {
        false
    } else {
        (a[i] as u32) < (b[i] as u32)
    }
}

/// The model files among `names` (as read from the model directory),
/// sorted case-insensitively, as `list_models` reports them.
pub fn list_model_files(names: Vec<String>) -> (r: Vec<String>)
    ensures
        strings_view(r@) == model_listing(strings_view(names@)),
{
    let ghost all = strings_view(names@);
    // The model names, in order, with their sort keys.
    let mut sorted: Vec<String> = Vec::new();
    let mut keys: Vec<Vec<char>> = Vec::new();
    let mut i: usize = 0;
    assert(all.take(0) =~= Seq::<Seq<char>>::empty());
    while i < names.len()
        invariant
            i <= names.len(),
            all == strings_view(names@),
            keys@.len() == sorted@.len(),
            forall|k: int| 0 <= k < keys@.len() ==> #[trigger] keys@[k]@ == unicode_lowercase(
                sorted@[k]@,
            ),
            strings_view(sorted@) == sort_by_lowercase(model_names(all.take(i as int))),
        decreases names.len() - i,
    {
        let name = &names[i];
        assert(all.take(i + 1).drop_last() =~= all.take(i as int));
        assert(all.take(i + 1).last() == name@);
        if valid_model_filename(name.as_str()) {
            let key = text::chars_of(lowercase(name.as_str()).as_str());
            let ghost s = strings_view(sorted@);
            let mut p: usize = sorted.len();
            assert(s.take(p as int) =~= s);
            assert(s.skip(p as int) =~= Seq::<Seq<char>>::empty());
            while p > 0 && !chars_le_exec(&keys[p - 1], &key)
                invariant
                    p <= sorted@.len(),
                    s == strings_view(sorted@),
                    keys@.len() == sorted@.len(),
                    forall|k: int| 0 <= k < keys@.len() ==> #[trigger] keys@[k]@
                        == unicode_lowercase(sorted@[k]@),
                    key@ == unicode_lowercase(name@),
                    insert_by_key(s, name@) == insert_by_key(s.take(p as int), name@) + s.skip(
                        p as int,
                    ),
                decreases p,
            {
                assert(keys@[p - 1]@ == unicode_lowercase(sorted@[p - 1]@));
                assert(s.take(p as int).drop_last() =~= s.take(p - 1));
                assert(s.take(p as int).last() == s[p - 1]);
                assert(insert_by_key(s.take(p - 1), name@).push(s[p - 1]) + s.skip(p as int)
                    =~= insert_by_key(s.take(p - 1), name@) + s.skip(p - 1));
                p = p - 1;
            }
            proof {
                if p > 0 {
                    assert(keys@[p - 1]@ == unicode_lowercase(sorted@[p - 1]@));
                    assert(s.take(p as int).last() == s[p - 1]);
                }
                assert(insert_by_key(s, name@) =~= s.take(p as int).push(name@) + s.skip(
                    p as int,
                ));
            }
            let ghost old_keys = keys@;
            let ghost old_sorted = sorted@;
            sorted.insert(p, name.clone());
            keys.insert(p, key);
            assert(strings_view(sorted@) =~= insert_by_key(s, name@));

            assert forall|k: int| 0 <= k < keys@.len() implies #[trigger] keys@[k]@
                == unicode_lowercase(sorted@[k]@) by {
                if k < p {
                    assert(keys@[k] == old_keys[k]);
                    assert(sorted@[k] == old_sorted[k]);
                } else if k > p {
                    assert(keys@[k] == old_keys[k - 1]);
                    assert(sorted@[k] == old_sorted[k - 1]);
                }
            }
            proof {
                let m = model_names(all.take(i as int));
                assert(model_names(all.take(i + 1)) == m.push(name@));
                assert(m.push(name@).drop_last() =~= m);
                assert(sort_by_lowercase(m.push(name@)) == insert_by_key(
                    sort_by_lowercase(m),
                    name@,
                ));
            }
        } else {
            assert(model_names(all.take(i + 1)) == model_names(all.take(i as int)));
        }
        i = i + 1;
    }
    assert(all.take(names.len() as int) =~= all);
    sorted
}

/// Keys of neighbouring names never decrease.
pub open spec fn sorted_by_lowercase(s: Seq<Seq<char>>) -> bool {
    forall|i: int|
        0 <= i < s.len() - 1 ==> #[trigger] chars_le(
            unicode_lowercase(s[i]),
            unicode_lowercase(s[i + 1]),
        )
}

proof fn lemma_chars_le_trans(a: Seq<char>, b: Seq<char>, c: Seq<char>)
    requires
        chars_le(a, b),
        chars_le(b, c),
    ensures
        chars_le(a, c),
    decreases a.len(),
{
    if a.len() > 0 && b.len() > 0 && c.len() > 0 && a[0] == b[0] && b[0] == c[0] {
        lemma_chars_le_trans(a.drop_first(), b.drop_first(), c.drop_first());
    }
}

/// A sequence sorted by lowercase neighbour to neighbour is sorted for
/// every pair of positions.
pub proof fn lemma_sorted_by_lowercase_pairwise(s: Seq<Seq<char>>)
    requires
        sorted_by_lowercase(s),
    ensures
        forall|i: int, j: int|
            0 <= i <= j < s.len() ==> chars_le(
                unicode_lowercase(#[trigger] s[i]),
                unicode_lowercase(#[trigger] s[j]),
            ),
{
    assert forall|i: int, j: int| 0 <= i <= j < s.len() implies chars_le(
        unicode_lowercase(#[trigger] s[i]),
        unicode_lowercase(#[trigger] s[j]),
    ) by {
        lemma_sorted_from(s, i, j);
    }
}

proof fn lemma_sorted_from(s: Seq<Seq<char>>, i: int, j: int)
    requires
        sorted_by_lowercase(s),
        0 <= i <= j < s.len(),
    ensures
        chars_le(unicode_lowercase(s[i]), unicode_lowercase(s[j])),
    decreases j - i,
{
    if i == j {
        lemma_chars_le_refl(unicode_lowercase(s[i]));
    } else {
        lemma_sorted_from(s, i, j - 1);
        assert(chars_le(unicode_lowercase(s[j - 1]), unicode_lowercase(s[(j - 1) + 1])));
        lemma_chars_le_trans(
            unicode_lowercase(s[i]),
            unicode_lowercase(s[j - 1]),
            unicode_lowercase(s[j]),
        );
    }
}

proof fn lemma_chars_le_refl(a: Seq<char>)
    ensures
        chars_le(a, a),
    decreases a.len(),
{
    if a.len() > 0 {
        lemma_chars_le_refl(a.drop_first());
    }
}

proof fn lemma_chars_le_total(a: Seq<char>, b: Seq<char>)
    ensures
        chars_le(a, b) || chars_le(b, a),
    decreases a.len(),
{
    if a.len() > 0 && b.len() > 0 {
        if a[0] == b[0] {
            lemma_chars_le_total(a.drop_first(), b.drop_first());
        } else {
            vstd::utf8::char_u32_cast(a[0], a[0] as u32);
            vstd::utf8::char_u32_cast(b[0], b[0] as u32);
        }
    }
}

proof fn lemma_insert_by_key_last(s: Seq<Seq<char>>, x: Seq<char>)
    ensures
        insert_by_key(s, x).len() == s.len() + 1,
        insert_by_key(s, x).last() == (if s.len() == 0 || chars_le(
            unicode_lowercase(s.last()),
            unicode_lowercase(x),
        ) {
            x
        } else {
            s.last()
        }),
    decreases s.len(),
{
    if s.len() > 0 && !chars_le(unicode_lowercase(s.last()), unicode_lowercase(x)) {
        lemma_insert_by_key_last(s.drop_last(), x);
    }
}

proof fn lemma_insert_by_key_sorted(s: Seq<Seq<char>>, x: Seq<char>)
    requires
        sorted_by_lowercase(s),
    ensures
        sorted_by_lowercase(insert_by_key(s, x)),
        insert_by_key(s, x).to_multiset() == s.to_multiset().insert(x),
    decreases s.len(),
{
    broadcast use vstd::seq_lib::group_to_multiset_ensures;

    if s.len() == 0 {
        assert(seq![x] =~= Seq::<Seq<char>>::empty().push(x));
    } else if chars_le(unicode_lowercase(s.last()), unicode_lowercase(x)) {
        let r = s.push(x);
        assert forall|i: int| 0 <= i < r.len() - 1 implies #[trigger] chars_le(
            unicode_lowercase(r[i]),
            unicode_lowercase(r[i + 1]),
        ) by {
            if i < s.len() - 1 {
                assert(chars_le(unicode_lowercase(s[i]), unicode_lowercase(s[i + 1])));
            }
        }
    } else {
        let t = s.drop_last();
        assert(sorted_by_lowercase(t)) by {
            assert forall|i: int| 0 <= i < t.len() - 1 implies #[trigger] chars_le(
                unicode_lowercase(t[i]),
                unicode_lowercase(t[i + 1]),
            ) by {
                assert(chars_le(unicode_lowercase(s[i]), unicode_lowercase(s[i + 1])));
            }
        }
        lemma_insert_by_key_sorted(t, x);
        lemma_insert_by_key_last(t, x);
        lemma_chars_le_total(unicode_lowercase(s.last()), unicode_lowercase(x));
        let u = insert_by_key(t, x);
        let r = u.push(s.last());
        if t.len() > 0 {
            let i = t.len() - 1;
            assert(chars_le(unicode_lowercase(s[i]), unicode_lowercase(s[i + 1])));
        }
        assert forall|i: int| 0 <= i < r.len() - 1 implies #[trigger] chars_le(
            unicode_lowercase(r[i]),
            unicode_lowercase(r[i + 1]),
        ) by {
            if i < u.len() - 1 {
                assert(chars_le(unicode_lowercase(u[i]), unicode_lowercase(u[i + 1])));
            } else {
                assert(r[i] == u.last());
            }
        }
        assert(s =~= t.push(s.last()));
    }
}

proof fn lemma_sort_by_lowercase(s: Seq<Seq<char>>)
    ensures
        sorted_by_lowercase(sort_by_lowercase(s)),
        sort_by_lowercase(s).to_multiset() == s.to_multiset(),
    decreases s.len(),
{
    broadcast use vstd::seq_lib::group_to_multiset_ensures;

    if s.len() == 0 {
    } else {
        lemma_sort_by_lowercase(s.drop_last());
        lemma_insert_by_key_sorted(sort_by_lowercase(s.drop_last()), s.last());
        assert(s =~= s.drop_last().push(s.last()));
    }
}

proof fn lemma_model_names(s: Seq<Seq<char>>)
    ensures
        forall|i: int| 0 <= i < model_names(s).len() ==> is_model_filename(#[trigger] model_names(s)[i]),
        forall|i: int| 0 <= i < s.len() && is_model_filename(#[trigger] s[i]) ==> model_names(s).contains(s[i]),
    decreases s.len(),
{
    if s.len() > 0 {
        lemma_model_names(s.drop_last());
        let m = model_names(s.drop_last());
        assert forall|i: int| 0 <= i < s.len() && is_model_filename(#[trigger] s[i]) implies model_names(s).contains(s[i]) by {
            if i < s.len() - 1 {
                assert(s[i] == s.drop_last()[i]);
                assert(m.contains(s[i]));
                if is_model_filename(s.last()) {
                    let k = choose|k: int| 0 <= k < m.len() && m[k] == s[i];
                    assert(m.push(s.last())[k] == s[i]);
                }
            } else {
                assert(model_names(s).last() == s[i]);
            }
        }
    }
}

/// The model listing is sorted case-insensitively, lists exactly the model
/// files of the directory (as many times as they occur), and nothing else.
pub proof fn law_model_listing(s: Seq<Seq<char>>)
    ensures
        sorted_by_lowercase(model_listing(s)),
        forall|i: int, j: int|
            0 <= i <= j < model_listing(s).len() ==> chars_le(
                unicode_lowercase(#[trigger] model_listing(s)[i]),
                unicode_lowercase(#[trigger] model_listing(s)[j]),
            ),
        model_listing(s).to_multiset() == model_names(s).to_multiset(),
        forall|i: int| 0 <= i < model_listing(s).len() ==> is_model_filename(#[trigger] model_listing(s)[i]),
        forall|i: int| 0 <= i < s.len() && is_model_filename(#[trigger] s[i]) ==> model_listing(s).contains(s[i]),
{
    broadcast use vstd::seq_lib::group_to_multiset_ensures;

    lemma_sort_by_lowercase(model_names(s));
    lemma_model_names(s);
    lemma_sorted_by_lowercase_pairwise(model_listing(s));
    let l = model_listing(s);
    let m = model_names(s);
    assert forall|i: int| 0 <= i < l.len() implies is_model_filename(#[trigger] l[i]) by {
        assert(l.to_multiset().count(l[i]) > 0);
        assert(m.contains(l[i]));
    }
    assert forall|i: int| 0 <= i < s.len() && is_model_filename(#[trigger] s[i]) implies l.contains(s[i]) by {
        assert(m.contains(s[i]));
        assert(m.to_multiset().count(s[i]) > 0);
    }
}

/// A successful helper run yields non-empty text without surrounding
/// whitespace.
pub proof fn law_helper_text_trimmed(
    exit_success: bool,
    status_text: Seq<char>,
    ok: bool,
    text: Option<Seq<char>>,
    error: Option<Seq<char>>,
    stderr: Seq<u8>,
)
    ensures
        helper_outcome_of(exit_success, status_text, ok, text, error, stderr) matches Ok(t) ==> t.len()
            > 0 && trim(t) == t,
{
    if let Some(t) = text {
        text::lemma_trim_idempotent(t);
    }
}

} // verus!
