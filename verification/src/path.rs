//! Paths of the files that belong to a translation unit.
//!
//! A unit is named by a Unix path. Its object and assembly files have the same path in the encoding
//! of the platform, with another extension. The `typed_path` crate knows the encodings.
use typed_path::Utf8Encoding;
use vstd::prelude::*;
use vstd::utf8::*;
use crate::text::{chars_of, text_eq};

verus! {

/// How a platform writes paths.
#[derive(Debug, Clone, Copy, PartialEq, Eq, Structural)]
pub enum PathEncoding {
    Unix,
    Windows,
}

/// A Unix path as `typed_path` writes it in the encoding of the platform.
pub uninterp spec fn re_encoded(path: Seq<char>, windows: bool) -> Seq<char>;

/// The last component of a path as `typed_path` sees it, if that is a file name.
pub uninterp spec fn path_file_name(path: Seq<char>, windows: bool) -> Option<Seq<char>>;

/// How many bytes a character takes in UTF-8.
pub open spec fn utf8_width(c: char) -> int {
    if (c as u32) < 0x80 {
        1
    } else if (c as u32) < 0x800 {
        2
    } else if (c as u32) < 0x1_0000 {
        3
    } else {
        4
    }
}

/// How many bytes a text takes in UTF-8.
pub open spec fn utf8_len(s: Seq<char>) -> int
    decreases s.len(),
{
    if s.len() == 0 {
        0
    } else {
        utf8_len(s.drop_last()) + utf8_width(s.last())
    }
}

/// How many characters stay if the last `bytes` bytes are taken from a text; none if that would
/// break a character apart, or if the text is shorter.
pub open spec fn chars_kept(s: Seq<char>, bytes: int) -> Option<int>
    decreases s.len(),
{
    if bytes == 0 {
        Some(s.len() as int)
    } else if bytes < 0 || s.len() == 0 {
        None
    } else {
        chars_kept(s.drop_last(), bytes - utf8_width(s.last()))
    }
}

/// Where a character last stands in a text, or -1.
pub open spec fn last_of(s: Seq<char>, c: char) -> int
    decreases s.len(),
{
    if s.len() == 0 {
        -1
    } else if s.last() == c {
        s.len() - 1
    } else {
        last_of(s.drop_last(), c)
    }
}

/// The extension of a file name: what stands behind its last dot. A name has none without a dot, or
/// if its only dot comes first.
pub open spec fn extension_of(name: Seq<char>) -> Seq<char> {
    if last_of(name, '.') <= 0 || name == ".."@ {
        Seq::empty()
    } else {
        name.skip(last_of(name, '.') + 1)
    }
}

/// How many bytes at the end of a path make room for a new extension: as many as the extension of
/// its file name has.
pub open spec fn bytes_to_cut(name: Option<Seq<char>>) -> int {
    match name {
        None => 0,
        Some(n) => utf8_len(extension_of(n)),
    }
}

/// Whether the extension of a path with this file name can be taken off its end.
pub open spec fn can_cut(path: Seq<char>, name: Option<Seq<char>>) -> bool {
    chars_kept(path, bytes_to_cut(name)) is Some
}

/// A path without the extension of its file name, and without the dot before it.
pub open spec fn without_extension(path: Seq<char>, name: Seq<char>) -> Seq<char> {
    let n = utf8_len(extension_of(name));
    let cut = path.take(chars_kept(path, n)->Some_0);
    if n > 0 && cut.len() > 0 && cut.last() == '.' {
        cut.drop_last()
    } else {
        cut
    }
}

/// A path with another extension, given its file name. A path without a file name stays as it is.
pub open spec fn extended(path: Seq<char>, name: Option<Seq<char>>, extension: Seq<char>) -> Seq<
    char,
> {
    match name {
        None => path,
        Some(n) => {
            let base = without_extension(path, n);
            if extension.len() == 0 {
                base
            } else if base.len() > 0 && base.last() == '.' {
                base + extension
            } else {
                base + "."@ + extension
            }
        },
    }
}

/// What stands behind the last slash of a path.
pub open spec fn base_name(path: Seq<char>) -> Seq<char> {
    path.skip(last_of(path, '/') + 1)
}

/// Whether a Unix path ends in a name: what stands behind its last slash is neither empty nor a
/// dot component.
pub open spec fn ends_in_name(path: Seq<char>) -> bool {
    let name = base_name(path);
    name.len() > 0 && name != "."@ && name != ".."@
}

/// A Unix path that ends in a name, with another extension.
pub open spec fn plain_path(path: Seq<char>, extension: Seq<char>) -> Seq<char> {
    extended(path, Some(base_name(path)), extension)
}

/// The file name of the object file of a unit whose Unix path ends in a name.
pub open spec fn plain_obj_file(unit: Seq<char>) -> Seq<char> {
    base_name(plain_path(unit, "o"@))
}

/// Whether the path of a unit takes a new extension.
pub open spec fn has_unit_path(unit: Seq<char>, encoding: PathEncoding) -> bool {
    let windows = encoding == PathEncoding::Windows;
    let path = re_encoded(unit, windows);
    can_cut(path, path_file_name(path, windows))
}

/// The path of the file of a unit with an extension.
pub open spec fn unit_path(unit: Seq<char>, encoding: PathEncoding, extension: Seq<char>) -> Seq<
    char,
> {
    let windows = encoding == PathEncoding::Windows;
    let path = re_encoded(unit, windows);
    extended(path, path_file_name(path, windows), extension)
}

/// Whether the object file of a unit has a path and, in it, a file name.
pub open spec fn has_obj_file(unit: Seq<char>, encoding: PathEncoding) -> bool {
    &&& has_unit_path(unit, encoding)
    &&& path_file_name(
        unit_path(unit, encoding, "o"@),
        encoding == PathEncoding::Windows,
    ) is Some
}

/// The file name of the object file of a unit.
pub open spec fn obj_file(unit: Seq<char>, encoding: PathEncoding) -> Seq<char> {
    path_file_name(
        unit_path(unit, encoding, "o"@),
        encoding == PathEncoding::Windows,
    )->Some_0
}

/// Calls `with_encoding` of `typed_path::Utf8UnixPath`. The result depends on the path and on the
/// encoding asked for; from Unix to Unix the path is not changed.
#[verifier::external_body]
fn with_encoding(path: &str, encoding: PathEncoding) -> (result: String)
    ensures
        result@ == re_encoded(path@, encoding == PathEncoding::Windows),
        encoding == PathEncoding::Unix ==> result@ == path@,
{
    let unix = typed_path::Utf8UnixPath::new(path);
    match encoding {
        PathEncoding::Unix => unix.with_encoding::<typed_path::Utf8UnixEncoding>().into_string(),
        PathEncoding::Windows => unix.with_encoding::<typed_path::Utf8WindowsEncoding>().into_string(),
    }
}

/// Calls `file_name` of `typed_path::Utf8TypedPath`. The result depends on the path and on its
/// encoding. In a Unix path, what stands behind the last slash is the file name, unless it is empty
/// or a dot component.
#[verifier::external_body]
fn file_name(path: &str, encoding: PathEncoding) -> (name: Option<String>)
    ensures
        match name {
            Some(n) => path_file_name(path@, encoding == PathEncoding::Windows) == Some(n@),
            None => path_file_name(path@, encoding == PathEncoding::Windows) is None,
        },
        encoding == PathEncoding::Unix && ends_in_name(path@) ==> name is Some && name->Some_0@
            == base_name(path@),
{
    let path_type = match encoding {
        PathEncoding::Unix => typed_path::PathType::Unix,
        PathEncoding::Windows => typed_path::PathType::Windows,
    };
    typed_path::Utf8TypedPath::new(path, path_type).file_name().map(|n| n.to_string())
}

/// Calls `with_extension` of `typed_path::Utf8TypedPath`. It takes as many bytes off the end of the
/// path as the extension of the file name has, and a dot in front of them; then it adds a dot,
/// unless the path ends in one, and the new extension. It panics where this would break a character
/// apart, which can be if the path goes on behind its file name. In a Unix path that ends in a name,
/// that name is the file name.
#[verifier::external_body]
fn with_extension(path: &str, encoding: PathEncoding, extension: &str) -> (result: String)
    requires
        can_cut(path@, path_file_name(path@, encoding == PathEncoding::Windows)),
    ensures
        result@ == extended(
            path@,
            path_file_name(path@, encoding == PathEncoding::Windows),
            extension@,
        ),
        encoding == PathEncoding::Unix && ends_in_name(path@) ==> result@ == plain_path(
            path@,
            extension@,
        ),
{
    let path_type = match encoding {
        PathEncoding::Unix => typed_path::PathType::Unix,
        PathEncoding::Windows => typed_path::PathType::Windows,
    };
    typed_path::Utf8TypedPath::new(path, path_type).with_extension(extension).to_string()
}

/// Calls `label` of `typed_path::Utf8NativeEncoding`: the label of the encoding of the platform
/// that the program was compiled for, which is one of two.
#[verifier::external_body]
fn native_label() -> (label: String)
    ensures
        label@ == "unix"@ || label@ == "windows"@,
{
    typed_path::Utf8NativeEncoding::label().to_string()
}

/// The encoding with a label.
pub fn labelled_encoding(label: &str) -> (encoding: PathEncoding)
    ensures
        encoding == if label@ == "windows"@ {
            PathEncoding::Windows
        } else {
            PathEncoding::Unix
        },
{
    if text_eq(label, "windows") {
        PathEncoding::Windows
    } else {
        PathEncoding::Unix
    }
}

/// The encoding of the platform that the program was compiled for; either can come back.
pub(crate) fn native_encoding() -> PathEncoding {
    let label = native_label();
    labelled_encoding(label.as_str())
}

/// How many bytes a character takes in UTF-8.
fn width_of(c: char) -> (width: u64)
    ensures
        width == utf8_width(c),
{
    if (c as u32) < 0x80 {
        1
    } else if (c as u32) < 0x800 {
        2
    } else if (c as u32) < 0x1_0000 {
        3
    } else {
        4
    }
}

/// The index behind the last dot of a file name, or its length if it has no extension.
fn extension_start(name: &Vec<char>) -> (start: usize)
    ensures
        start <= name@.len(),
        name@.skip(start as int) == extension_of(name@),
{
    proof {
        reveal_strlit("..");
    }
    let mut i: usize = name.len();
    proof {
        assert(name@.take(i as int) =~= name@);
    }
    while i > 0 && name[i - 1] != '.'
        invariant
            i <= name@.len(),
            last_of(name@, '.') == last_of(name@.take(i as int), '.'),
        decreases i,
    {
        proof {
            assert(name@.take(i as int).drop_last() =~= name@.take(i - 1));
        }
        i -= 1;
    }
    proof {
        assert(last_of(name@, '.') == i - 1);
    }
    if i <= 1 || (name.len() == 2 && name[0] == '.' && name[1] == '.') {
        assert(name@.len() == 2 && name@[0] == '.' && name@[1] == '.' ==> name@ =~= ".."@);
        return name.len();
    }
    assert(name@ != ".."@);
    i
}

/// Whether the last characters of `path` take just as many bytes as those of `name` from `start`.
fn ends_align(path: &Vec<char>, name: &Vec<char>, start: usize) -> (fits: bool)
    requires
        start <= name@.len(),
    ensures
        fits == (chars_kept(path@, utf8_len(name@.skip(start as int))) is Some),
{
    let mut bytes: u128 = 0;
    let mut i: usize = start;
    proof {
        assert(name@.subrange(start as int, start as int) =~= Seq::empty());
    }
    while i < name.len()
        invariant
            start <= i <= name.len(),
            bytes == utf8_len(name@.subrange(start as int, i as int)),
            bytes <= 4 * (i - start),
        decreases name@.len() - i,
    {
        proof {
            assert(name@.subrange(start as int, i + 1).drop_last() =~= name@.subrange(
                start as int,
                i as int,
            ));
        }
        bytes += width_of(name[i]) as u128;
        i += 1;
    }
    assert(name@.subrange(start as int, i as int) =~= name@.skip(start as int));
    let ghost total = bytes;
    let mut k: usize = path.len();
    assert(path@.take(k as int) =~= path@);
    while bytes > 0 && k > 0
        invariant
            k <= path@.len(),
            total == utf8_len(name@.skip(start as int)),
            chars_kept(path@, total as int) == chars_kept(path@.take(k as int), bytes as int),
        decreases k,
    {
        let width: u128 = width_of(path[k - 1]) as u128;
        assert(path@.take(k as int).drop_last() =~= path@.take(k - 1));
        if width > bytes {
            assert(chars_kept(path@.take(k - 1), bytes - width) is None);
            return false;
        }
        bytes -= width;
        k -= 1;
    }
    bytes == 0
}

/// Whether the path of a unit takes a new extension. Where it does not, the path goes on behind its
/// file name in a way that would break a character apart.
pub fn takes_extension(unit: &str, encoding: PathEncoding) -> (fits: bool)
    ensures
        fits == has_unit_path(unit@, encoding),
        encoding == PathEncoding::Unix && ends_in_name(unit@) ==> fits,
{
    let path = with_encoding(unit, encoding);
    proof {
        lemma_plain_cut(unit@);
    }
    match file_name(path.as_str(), encoding) {
        None => true,
        Some(name) => {
            let chars = chars_of(name.as_str());
            let start = extension_start(&chars);
            ends_align(&chars_of(path.as_str()), &chars, start)
        },
    }
}

/// The path of the object file of a unit.
pub fn obj_path_for_unit(unit: &str, encoding: PathEncoding) -> (path: String)
    requires
        has_unit_path(unit@, encoding),
    ensures
        path@ == unit_path(unit@, encoding, "o"@),
        encoding == PathEncoding::Unix ==> path@ == extended(
            unit@,
            path_file_name(unit@, false),
            "o"@,
        ),
        encoding == PathEncoding::Unix && ends_in_name(unit@) ==> path@ == plain_path(
            unit@,
            "o"@,
        ),
{
    let native = with_encoding(unit, encoding);
    with_extension(native.as_str(), encoding, "o")
}

/// The path of the assembly file of a unit.
pub fn asm_path_for_unit(unit: &str, encoding: PathEncoding) -> (path: String)
    requires
        has_unit_path(unit@, encoding),
    ensures
        path@ == unit_path(unit@, encoding, "s"@),
        encoding == PathEncoding::Unix ==> path@ == extended(
            unit@,
            path_file_name(unit@, false),
            "s"@,
        ),
        encoding == PathEncoding::Unix && ends_in_name(unit@) ==> path@ == plain_path(
            unit@,
            "s"@,
        ),
{
    let native = with_encoding(unit, encoding);
    with_extension(native.as_str(), encoding, "s")
}

/// The path of the object file of a unit, if the path of the unit takes an extension. The path of a
/// unit that ends in a name always does on Unix.
pub fn try_obj_path_for_unit(unit: &str, encoding: PathEncoding) -> (path: Option<String>)
    ensures
        path is Some <==> has_unit_path(unit@, encoding),
        path is Some ==> path->Some_0@ == unit_path(unit@, encoding, "o"@),
        encoding == PathEncoding::Unix && ends_in_name(unit@) ==> path is Some && path->Some_0@
            == plain_path(unit@, "o"@),
{
    if takes_extension(unit, encoding) {
        Some(obj_path_for_unit(unit, encoding))
    } else {
        None
    }
}

/// The path of the assembly file of a unit, if the path of the unit takes an extension. The path of a
/// unit that ends in a name always does on Unix.
pub fn try_asm_path_for_unit(unit: &str, encoding: PathEncoding) -> (path: Option<String>)
    ensures
        path is Some <==> has_unit_path(unit@, encoding),
        path is Some ==> path->Some_0@ == unit_path(unit@, encoding, "s"@),
        encoding == PathEncoding::Unix && ends_in_name(unit@) ==> path is Some && path->Some_0@
            == plain_path(unit@, "s"@),
{
    if takes_extension(unit, encoding) {
        Some(asm_path_for_unit(unit, encoding))
    } else {
        None
    }
}

/// The file name of the object file of a unit.
pub fn obj_file_name(unit: &str, encoding: PathEncoding) -> (name: String)
    requires
        has_obj_file(unit@, encoding),
    ensures
        name@ == obj_file(unit@, encoding),
        encoding == PathEncoding::Unix && ends_in_name(unit@) ==> name@ == plain_obj_file(unit@),
{
    proof {
        lemma_plain_obj_file(unit@);
    }
    let path = obj_path_for_unit(unit, encoding);
    match file_name(path.as_str(), encoding) {
        Some(name) => name,
        None => path,
    }
}

/// The file name of the object file of a unit, if it has one. A unit whose path ends in a name
/// always does on Unix.
pub fn try_obj_file_name(unit: &str, encoding: PathEncoding) -> (name: Option<String>)
    ensures
        name is Some <==> has_obj_file(unit@, encoding),
        name is Some ==> name->Some_0@ == obj_file(unit@, encoding),
        encoding == PathEncoding::Unix && ends_in_name(unit@) ==> name is Some && name->Some_0@
            == plain_obj_file(unit@),
{
    proof {
        lemma_plain_obj_file(unit@);
    }
    match try_obj_path_for_unit(unit, encoding) {
        None => None,
        Some(path) => match file_name(path.as_str(), encoding) {
            None => None,
            Some(_) => Some(obj_file_name(unit, encoding)),
        },
    }
}

/// The length of a text in UTF-8 adds up over its parts.
proof fn lemma_utf8_len_add(a: Seq<char>, b: Seq<char>)
    ensures
        utf8_len(a + b) == utf8_len(a) + utf8_len(b),
    decreases b.len(),
{
    if b.len() == 0 {
        assert(a + b =~= a);
    } else {
        lemma_utf8_len_add(a, b.drop_last());
        assert((a + b).drop_last() =~= a + b.drop_last());
    }
}

/// The length of a text in UTF-8 is that of its encoding.
pub proof fn law_utf8_len(s: Seq<char>)
    ensures
        utf8_len(s) == encode_utf8(s).len(),
    decreases s.len(),
{
    if s.len() > 0 {
        let first = seq![s[0]];
        law_utf8_len(s.drop_first());
        lemma_utf8_len_add(first, s.drop_first());
        assert(first + s.drop_first() =~= s);
        assert(first.drop_last() =~= Seq::empty());
        assert(utf8_len(first.drop_last()) == 0);
        assert(utf8_len(first) == utf8_width(s[0]));
        char_is_scalar(s[0]);
        assert(encode_scalar(s[0] as u32).len() == utf8_width(s[0]));
    }
}

/// Taking off as many bytes as the tail of a text has takes off the tail.
proof fn lemma_cut_tail(head: Seq<char>, tail: Seq<char>)
    ensures
        utf8_len(tail) >= tail.len(),
        chars_kept(head + tail, utf8_len(tail)) == Some(head.len() as int),
    decreases tail.len(),
{
    if tail.len() == 0 {
        assert(head + tail =~= head);
    } else {
        lemma_cut_tail(head, tail.drop_last());
        assert((head + tail).drop_last() =~= head + tail.drop_last());
    }
}

/// A character last stands in front of a tail that does not hold it.
proof fn lemma_last_of(head: Seq<char>, tail: Seq<char>, c: char)
    requires
        !tail.contains(c),
    ensures
        last_of(head + tail, c) == last_of(head, c),
    decreases tail.len(),
{
    if tail.len() == 0 {
        assert(head + tail =~= head);
    } else {
        assert(tail.contains(tail.last()));
        assert((head + tail).drop_last() =~= head + tail.drop_last());
        assert(!tail.drop_last().contains(c)) by {
            if tail.drop_last().contains(c) {
                let k = choose|k: int| 0 <= k < tail.drop_last().len() && tail.drop_last()[k] == c;
                assert(tail[k] == c);
            }
        }
        lemma_last_of(head, tail.drop_last(), c);
    }
}

/// Where a character last stands lies inside the text, or is -1.
proof fn lemma_last_of_range(s: Seq<char>, c: char)
    ensures
        -1 <= last_of(s, c) < s.len(),
        s.len() > 0 && s.last() != c ==> last_of(s, c) < s.len() - 1,
    decreases s.len(),
{
    if s.len() > 0 {
        lemma_last_of_range(s.drop_last(), c);
    }
}

/// A path that ends in a file name with an extension can be given another one: the new extension
/// stands where the old one stood, and all in front of it stays. (Of two dots in front of an
/// extension one is lost, so that case is left out.)
pub proof fn law_extension_is_replaced(
    dir: Seq<char>,
    stem: Seq<char>,
    before: Seq<char>,
    after: Seq<char>,
)
    requires
        stem.len() > 0,
        before.len() > 0 ==> stem.last() != '.',
        stem + "."@ + before != ".."@,
        !before.contains('.'),
        after.len() > 0,
    ensures
        ({
            let name = stem + "."@ + before;
            &&& can_cut(dir + name, Some(name))
            &&& extended(dir + name, Some(name), after) == dir + stem + "."@ + after
        }),
{
    reveal_strlit(".");
    let name = stem + "."@ + before;
    let path = dir + name;
    let head = dir + stem + "."@;
    assert((stem + "."@).last() == '.');
    lemma_last_of(stem + "."@, before, '.');
    assert(last_of(name, '.') == stem.len());
    assert(extension_of(name) =~= before);
    assert(path =~= head + before);
    lemma_cut_tail(head, before);
    assert(path.take(head.len() as int) =~= head);
    assert(head.drop_last() =~= dir + stem);
    if before.len() > 0 {
        assert(without_extension(path, name) =~= dir + stem);
    }
}

/// A path that ends in a file name without an extension gets one: a dot and the new extension are
/// added behind it.
pub proof fn law_extension_is_added(dir: Seq<char>, name: Seq<char>, after: Seq<char>)
    requires
        name.len() > 0,
        !name.skip(1).contains('.'),
        name != "."@,
        after.len() > 0,
    ensures
        can_cut(dir + name, Some(name)),
        extended(dir + name, Some(name), after) == dir + name + "."@ + after,
{
    reveal_strlit(".");
    let first = name.take(1);
    assert(name =~= first + name.skip(1));
    lemma_last_of(first, name.skip(1), '.');
    assert(first.drop_last() =~= Seq::empty());
    assert(last_of(first.drop_last(), '.') == -1);
    assert(last_of(first, '.') <= 0);
    let path = dir + name;
    assert(path.take(path.len() as int) =~= path);
    if name.len() == 1 {
        if name.last() == '.' {
            assert(name =~= "."@);
        }
    } else {
        assert(name.skip(1).contains(name.skip(1).last()));
    }
}

/// The object and the assembly file of a unit lie side by side: their paths differ in the last
/// character only, or the unit has no file name and both are its own path.
pub proof fn law_obj_and_asm_side_by_side(unit: Seq<char>, encoding: PathEncoding)
    ensures
        ({
            let windows = encoding == PathEncoding::Windows;
            let path = re_encoded(unit, windows);
            let object = unit_path(unit, encoding, "o"@);
            let source = unit_path(unit, encoding, "s"@);
            match path_file_name(path, windows) {
                None => object == path && source == path,
                Some(_) => object.drop_last() == source.drop_last() && object.last() == 'o' && source.last()
                    == 's',
            }
        }),
{
    reveal_strlit("o");
    reveal_strlit("s");
    let object = unit_path(unit, encoding, "o"@);
    let source = unit_path(unit, encoding, "s"@);
    let windows = encoding == PathEncoding::Windows;
    if path_file_name(re_encoded(unit, windows), windows) is Some {
        assert(object.drop_last() =~= source.drop_last());
    }
}

/// The extension of a path that ends in a name can be cut off.
proof fn lemma_plain_cut(path: Seq<char>)
    ensures
        can_cut(path, Some(base_name(path))),
{
    lemma_last_of_range(path, '/');
    let name = base_name(path);
    lemma_last_of_range(name, '.');
    let extension = extension_of(name);
    let head = path.take(path.len() - extension.len());
    assert(path =~= head + extension);
    lemma_cut_tail(head, extension);
}

/// The path of an object file ends in a name.
proof fn lemma_plain_obj_file(unit: Seq<char>)
    ensures
        ends_in_name(plain_path(unit, "o"@)),
{
    reveal_strlit("o");
    reveal_strlit(".");
    reveal_strlit("..");
    let path = plain_path(unit, "o"@);
    assert(path.last() == 'o');
    lemma_last_of_range(path, '/');
    assert(base_name(path).last() == 'o');
}

/// What stands behind the last slash of a path is the part that holds no slash.
proof fn lemma_base_name(dir: Seq<char>, name: Seq<char>)
    requires
        dir.len() == 0 || dir.last() == '/',
        !name.contains('/'),
    ensures
        base_name(dir + name) == name,
{
    lemma_last_of(dir, name, '/');
    assert(last_of(dir, '/') == dir.len() - 1);
    assert((dir + name).skip(dir.len() as int) =~= name);
}

/// A unit in a directory, with an extension, has its object and assembly files beside it: the Unix
/// paths have the new extensions, and the file name of the object file is the stem and `.o`. The
/// path of the assembly file is that of the object file with another extension.
pub proof fn law_files_of_a_unit(dir: Seq<char>, stem: Seq<char>, extension: Seq<char>)
    requires
        dir.len() == 0 || dir.last() == '/',
        stem.len() > 0,
        !stem.contains('/'),
        !extension.contains('/'),
        !extension.contains('.'),
        extension.len() > 0 ==> stem.last() != '.',
        stem + "."@ + extension != ".."@,
    ensures
        ({
            let unit = dir + (stem + "."@ + extension);
            &&& ends_in_name(unit)
            &&& plain_path(unit, "o"@) == dir + stem + "."@ + "o"@
            &&& plain_path(unit, "s"@) == dir + stem + "."@ + "s"@
            &&& plain_obj_file(unit) == stem + "."@ + "o"@
            &&& stem.last() != '.' ==> plain_path(plain_path(unit, "o"@), "s"@) == plain_path(
                unit,
                "s"@,
            )
        }),
{
    reveal_strlit(".");
    reveal_strlit("o");
    reveal_strlit("s");
    let name = stem + "."@ + extension;
    assert(!name.contains('/')) by {
        if name.contains('/') {
            let k = choose|k: int| 0 <= k < name.len() && name[k] == '/';
            if k < stem.len() {
                assert(stem.contains(stem[k]));
            } else if k > stem.len() {
                assert(extension.contains(extension[k - stem.len() - 1]));
            }
        }
    }
    lemma_base_name(dir, name);
    assert(name.len() > 1);
    law_extension_is_replaced(dir, stem, extension, "o"@);
    law_extension_is_replaced(dir, stem, extension, "s"@);
    let file = stem + "."@ + "o"@;
    assert(!file.contains('/')) by {
        if file.contains('/') {
            let k = choose|k: int| 0 <= k < file.len() && file[k] == '/';
            assert(k < stem.len());
            assert(stem.contains(stem[k]));
        }
    }
    lemma_base_name(dir, file);
    assert(dir + stem + "."@ + "o"@ =~= dir + file);
    if stem.last() != '.' {
        assert(file.last() == 'o');
        assert(".."@.last() == '.') by {
            reveal_strlit("..");
        }
        assert(!"o"@.contains('.'));
        law_extension_is_replaced(dir, stem, "o"@, "s"@);
    }
}

/// A unit in a directory, without an extension, has its object and assembly files beside it: the
/// extensions are added to its name. The path of the assembly file is that of the object file with
/// another extension.
pub proof fn law_files_of_a_bare_unit(dir: Seq<char>, name: Seq<char>)
    requires
        dir.len() == 0 || dir.last() == '/',
        name.len() > 0,
        !name.contains('/'),
        !name.skip(1).contains('.'),
        name != "."@,
    ensures
        ends_in_name(dir + name),
        plain_path(dir + name, "o"@) == dir + name + "."@ + "o"@,
        plain_path(dir + name, "s"@) == dir + name + "."@ + "s"@,
        plain_obj_file(dir + name) == name + "."@ + "o"@,
        plain_path(plain_path(dir + name, "o"@), "s"@) == plain_path(dir + name, "s"@),
{
    reveal_strlit(".");
    reveal_strlit("o");
    reveal_strlit("s");
    assert(name != ".."@) by {
        reveal_strlit("..");
        if name == ".."@ {
            assert(name.skip(1)[0] == '.');
        }
    }
    lemma_base_name(dir, name);
    law_extension_is_added(dir, name, "o"@);
    law_extension_is_added(dir, name, "s"@);
    let file = name + "."@ + "o"@;
    assert(!file.contains('/')) by {
        if file.contains('/') {
            let k = choose|k: int| 0 <= k < file.len() && file[k] == '/';
            assert(k < name.len());
            assert(name.contains(name[k]));
        }
    }
    lemma_base_name(dir, file);
    assert(dir + name + "."@ + "o"@ =~= dir + file);
    assert(name.last() != '.') by {
        if name.len() == 1 {
            if name.last() == '.' {
                assert(name =~= "."@);
            }
        } else {
            assert(name.skip(1).contains(name.skip(1).last()));
        }
    }
    let object = dir + file;
    assert(file != ".o"@) by {
        reveal_strlit(".o");
    }
    assert(object[object.len() - 3] == name.last());
    law_assembly_path_from_object_path(dir + name, name);
}

/// The path of the assembly file is that of the object file with another extension, for every Unix
/// path with a file name. (Left out are object files that are named `.o`, and those with two dots
/// in front of the extension, of which one is lost.)
pub proof fn law_assembly_path_from_object_path(path: Seq<char>, name: Seq<char>)
    requires
        ({
            let object = extended(path, Some(name), "o"@);
            &&& base_name(object) != ".o"@
            &&& object.len() >= 3 ==> object[object.len() - 3] != '.'
        }),
    ensures
        ({
            let object = extended(path, Some(name), "o"@);
            &&& ends_in_name(object)
            &&& plain_path(object, "s"@) == extended(path, Some(name), "s"@)
        }),
{
    reveal_strlit(".");
    reveal_strlit("..");
    reveal_strlit("o");
    reveal_strlit("s");
    reveal_strlit(".o");
    let object = extended(path, Some(name), "o"@);
    let last = object.len() - 1;
    let base = without_extension(path, name);
    assert(object[last] == 'o' && object[last - 1] == '.');
    lemma_last_of_range(object, '/');
    lemma_last_of_range(object.drop_last(), '/');
    let at = last_of(object, '/');
    assert(at == last_of(object.drop_last(), '/'));
    assert(at < last - 1);
    let file = base_name(object);
    assert(file.last() == 'o' && file[file.len() - 2] == '.');
    let dir = object.take(at + 1);
    let stem = file.take(file.len() - 2);
    if stem.len() == 0 {
        assert(file =~= ".o"@);
    }
    assert(stem.last() == object[last - 2]);
    assert(stem + "."@ + "o"@ =~= file);
    assert(object =~= dir + file);
    assert(!"o"@.contains('.'));
    law_extension_is_replaced(dir, stem, "o"@, "s"@);
    let shared = object.drop_last();
    assert(dir + stem + "."@ + "s"@ =~= shared + "s"@);
    assert(extended(path, Some(name), "s"@) =~= shared + "s"@);
}

/// On every platform the files of a unit have its path in the encoding of the platform, with the new
/// extension where the old one stood; the object file has the file name of that path.
pub proof fn law_unit_files(
    unit: Seq<char>,
    encoding: PathEncoding,
    dir: Seq<char>,
    stem: Seq<char>,
    extension: Seq<char>,
    after: Seq<char>,
)
    requires
        stem.len() > 0,
        extension.len() > 0 ==> stem.last() != '.',
        stem + "."@ + extension != ".."@,
        !extension.contains('.'),
        after.len() > 0,
        re_encoded(unit, encoding is Windows) == dir + (stem + "."@ + extension),
        path_file_name(dir + (stem + "."@ + extension), encoding is Windows) == Some(
            stem + "."@ + extension,
        ),
    ensures
        has_unit_path(unit, encoding),
        unit_path(unit, encoding, after) == dir + stem + "."@ + after,
        has_obj_file(unit, encoding) <==> path_file_name(
            dir + stem + "."@ + "o"@,
            encoding is Windows,
        ) is Some,
        has_obj_file(unit, encoding) ==> path_file_name(
            dir + stem + "."@ + "o"@,
            encoding is Windows,
        ) == Some(obj_file(unit, encoding)),
{
    reveal_strlit("o");
    law_extension_is_replaced(dir, stem, extension, after);
    law_extension_is_replaced(dir, stem, extension, "o"@);
}

/// What is cut from a path for a new extension goes by the bytes of the old one, also where the path
/// goes on behind its file name: as many bytes as the extension of the file name has are taken off
/// the end, and a dot in front of them; then a dot, unless there is one, and the new extension are
/// added.
pub proof fn law_extension_is_cut_by_bytes(
    head: Seq<char>,
    tail: Seq<char>,
    stem: Seq<char>,
    extension: Seq<char>,
    after: Seq<char>,
)
    requires
        stem.len() > 0,
        stem + "."@ + extension != ".."@,
        !extension.contains('.'),
        extension.len() > 0,
        encode_utf8(tail).len() == encode_utf8(extension).len(),
        after.len() > 0,
    ensures
        can_cut(head + tail, Some(stem + "."@ + extension)),
        head.len() > 0 && head.last() != '.' ==> extended(
            head + tail,
            Some(stem + "."@ + extension),
            after,
        ) == head + "."@ + after,
        head.len() > 1 && head.last() == '.' && head[head.len() - 2] != '.' ==> extended(
            head + tail,
            Some(stem + "."@ + extension),
            after,
        ) == head + after,
{
    reveal_strlit(".");
    let name = stem + "."@ + extension;
    assert((stem + "."@).last() == '.');
    lemma_last_of(stem + "."@, extension, '.');
    assert(extension_of(name) =~= extension);
    law_utf8_len(tail);
    law_utf8_len(extension);
    lemma_cut_tail(head, tail);
    lemma_cut_tail(Seq::empty(), extension);
    let path = head + tail;
    assert(path.take(head.len() as int) =~= head);
    if head.len() > 1 && head.last() == '.' {
        assert(without_extension(path, name) =~= head.drop_last());
        assert(head.drop_last() + "."@ =~= head);
    }
}

} // verus!
