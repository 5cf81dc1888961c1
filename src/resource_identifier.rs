use vstd::prelude::*;

verus! {

/// Why a resource identifier was refused.
#[derive(Clone, Copy, Debug, PartialEq, Eq, Structural)]
pub enum ParseError {
    TooManyColons,
    InvalidCharactersInNamespace,
    InvalidCharactersInPath,
    EmptyString,
}

/// Characters allowed in a resource path.
pub open spec fn valid_path_char(c: char) -> bool {
    ('0' <= c && c <= '9') || ('a' <= c && c <= 'z') || c == '_' || c == '-' || c == '.' || c
        == '/'
}

pub open spec fn valid_path(s: Seq<char>) -> bool {
    forall|i: int| 0 <= i < s.len() ==> valid_path_char(#[trigger] s[i])
}

/// A namespace is a path without `/`.
pub open spec fn valid_namespace(s: Seq<char>) -> bool {
    valid_path(s) && !s.contains('/')
}

/// Number of `:` in `s`.
pub open spec fn colon_count(s: Seq<char>) -> nat
    decreases s.len(),
{
    if s.len() == 0 {
        0
    } else {
        colon_count(s.drop_last()) + if s.last() == ':' {
            1nat
        } else {
            0nat
        }
    }
}

/// Index of the first `:` in `s`, or its length.
pub open spec fn first_colon(s: Seq<char>) -> int
    decreases s.len(),
{
    if s.len() == 0 {
        0
    } else if s[0] == ':' {
        0
    } else {
        1 + first_colon(s.drop_first())
    }
}

/// The namespace that a bare path gets.
pub open spec fn default_namespace() -> Seq<char> {
    seq!['m', 'i', 'n', 'e', 'c', 'r', 'a', 'f', 't']
}

/// `namespace:path` split and checked: the path is checked before the namespace.
pub open spec fn parse_spec(s: Seq<char>) -> Result<(Seq<char>, Seq<char>), ParseError> {
    if s.len() == 0 {
        Err(ParseError::EmptyString)
    } else if colon_count(s) == 0 {
        if valid_path(s) {
            Ok((default_namespace(), s))
        } else {
            Err(ParseError::InvalidCharactersInPath)
        }
    } else if colon_count(s) == 1 {
        let ns = s.subrange(0, first_colon(s));
        let path = s.subrange(first_colon(s) + 1, s.len() as int);
        if !valid_path(path) {
            Err(ParseError::InvalidCharactersInPath)
        } else if !valid_namespace(ns) {
            Err(ParseError::InvalidCharactersInNamespace)
        } else {
            Ok((ns, path))
        }
    } else {
        Err(ParseError::TooManyColons)
    }
}

/// A path inside a namespace, such as `block/stone`.
#[derive(Clone, Debug, PartialEq, Eq, Hash, PartialOrd, Ord)]
pub struct ResourcePath(String);

/// A namespace, such as `minecraft`.
#[derive(Clone, Debug, PartialEq, Eq, Hash, PartialOrd, Ord)]
pub struct ResourceNamespace(String);

/// A valid resource identifier `namespace:path`.
#[derive(Clone, Debug, PartialEq, Eq, Hash, PartialOrd, Ord)]
pub struct MinecraftResourceIdentifier {
    namespace: ResourceNamespace,
    path: ResourcePath,
}

impl ResourcePath {
    pub closed spec fn view(&self) -> Seq<char> {
        self.0@
    }

    pub fn from_str(s: &str) -> (r: Result<Self, ParseError>)
        ensures
            valid_path(s@) <==> r is Ok,
            r matches Ok(p) ==> p@ == s@,
            r matches Err(e) ==> e == ParseError::InvalidCharactersInPath,
    {
        match is_valid_path(String::from_str(s)) {
            Ok(p) => Ok(ResourcePath(p)),
            Err(e) => Err(e),
        }
    }

    pub fn to_string(&self) -> (r: String)
        ensures
            r@ == self@,
    {
        String::from_str(self.0.as_str())
    }
}

impl ResourceNamespace {
    pub closed spec fn view(&self) -> Seq<char> {
        self.0@
    }

    pub fn from_str(s: &str) -> (r: Result<Self, ParseError>)
        ensures
            valid_namespace(s@) <==> r is Ok,
            r matches Ok(n) ==> n@ == s@,
            r matches Err(e) ==> e == ParseError::InvalidCharactersInNamespace,
    {
        match is_valid_namespace(String::from_str(s)) {
            Ok(n) => Ok(ResourceNamespace(n)),
            Err(e) => Err(e),
        }
    }

    pub fn to_string(&self) -> (r: String)
        ensures
            r@ == self@,
    {
        String::from_str(self.0.as_str())
    }
}

/// Checks that every character of `path` is allowed in a resource path.
pub fn is_valid_path(path: String) -> (r: Result<String, ParseError>)
    ensures
        valid_path(path@) <==> r is Ok,
        r matches Ok(p) ==> p@ == path@,
        r matches Err(e) ==> e == ParseError::InvalidCharactersInPath,
{
    let n = path.as_str().unicode_len();
    let mut i: usize = 0;
    while i < n
        invariant
            n == path@.len(),
            i <= n,
            forall|j: int| 0 <= j < i ==> valid_path_char(#[trigger] path@[j]),
        decreases n - i,
    {
        let c = path.as_str().get_char(i);
        match is_valid_path_character(&c) {
            Ok(()) => {},
            Err(e) => {
                return Err(e);
            },
        }
        i = i + 1;
    }
    Ok(path)
}

/// Checks that `c` is allowed in a resource path.
pub fn is_valid_path_character(c: &char) -> (r: Result<(), ParseError>)
    ensures
        valid_path_char(*c) <==> r is Ok,
        r matches Err(e) ==> e == ParseError::InvalidCharactersInPath,
{
    let c = *c;
    if ('0' <= c && c <= '9') || ('a' <= c && c <= 'z') || c == '_' || c == '-' || c == '.' || c
        == '/' {
        Ok(())
    } else {
        Err(ParseError::InvalidCharactersInPath)
    }
}

/// Checks that `namespace` is a path without `/`.
pub fn is_valid_namespace(namespace: String) -> (r: Result<String, ParseError>)
    ensures
        valid_namespace(namespace@) <==> r is Ok,
        r matches Ok(p) ==> p@ == namespace@,
        r matches Err(e) ==> e == ParseError::InvalidCharactersInNamespace,
{
    let ghost given = namespace@;
    let checked = match is_valid_path(namespace) {
        Ok(n) => n,
        Err(_) => {
            return Err(ParseError::InvalidCharactersInNamespace);
        },
    };
    let n = checked.as_str().unicode_len();
    let mut i: usize = 0;
    while i < n
        invariant
            checked@ == given,
            given == namespace@,
            n == checked@.len(),
            i <= n,
            forall|j: int| 0 <= j < i ==> #[trigger] checked@[j] != '/',
        decreases n - i,
    {
        if checked.as_str().get_char(i) == '/' {
            assert(checked@[i as int] == '/');
            assert(checked@.contains('/'));
            assert(!valid_namespace(given));
            return Err(ParseError::InvalidCharactersInNamespace);
        }
        i = i + 1;
    }
    assert(!checked@.contains('/'));
    Ok(checked)
}

proof fn lemma_colon_count_push(s: Seq<char>, c: char)
    ensures
        colon_count(s.push(c)) == colon_count(s) + if c == ':' {
            1nat
        } else {
            0nat
        },
{
    assert(s.push(c).drop_last() =~= s);
}

/// `first_colon` of a prefix with no colon before `i` is at least `i`; a
/// colon at `i` with none before makes it `i`.
proof fn lemma_first_colon(s: Seq<char>, i: int)
    requires
        0 <= i <= s.len(),
        forall|j: int| 0 <= j < i ==> s[j] != ':',
    ensures
        first_colon(s) >= i,
        i < s.len() && s[i] == ':' ==> first_colon(s) == i,
        colon_count(s.subrange(0, i)) == 0,
    decreases i,
{
    lemma_first_colon_nonneg(s);
    if i > 0 {
        assert forall|j: int| 0 <= j < i - 1 implies s.drop_first()[j] != ':' by {
            assert(s.drop_first()[j] == s[j + 1]);
        }
        lemma_first_colon(s.drop_first(), i - 1);
        assert(s.drop_first().subrange(0, i - 1) =~= s.subrange(1, i));
        lemma_colon_count_front(s.subrange(0, i));
        assert(s.subrange(0, i).drop_first() =~= s.subrange(1, i));
    }
}

proof fn lemma_first_colon_nonneg(s: Seq<char>)
    ensures
        first_colon(s) >= 0,
    decreases s.len(),
{
    if s.len() > 0 {
        lemma_first_colon_nonneg(s.drop_first());
    }
}

proof fn lemma_colon_count_front(s: Seq<char>)
    requires
        s.len() > 0,
    ensures
        colon_count(s) == colon_count(s.drop_first()) + if s[0] == ':' {
            1nat
        } else {
            0nat
        },
    decreases s.len(),
{
    if s.len() > 1 {
        lemma_colon_count_front(s.drop_last());
        assert(s.drop_last().drop_first() =~= s.drop_first().drop_last());
        assert(s.drop_first().last() == s.last());
        assert(colon_count(s.drop_first()) == colon_count(s.drop_first().drop_last()) + if s.drop_first().last() == ':' {
            1nat
        } else {
            0nat
        });
    } else {
        assert(s.drop_first().len() == 0);
        assert(s.drop_last().len() == 0);
        assert(colon_count(s.drop_last()) == 0);
        assert(colon_count(s.drop_first()) == 0);
    }
}

impl MinecraftResourceIdentifier {
    pub closed spec fn namespace_view(&self) -> Seq<char> {
        self.namespace@
    }

    pub closed spec fn path_view(&self) -> Seq<char> {
        self.path@
    }

    /// Parses `namespace:path`, or a bare path in the `minecraft` namespace.
    pub fn from_str(s: &str) -> (r: Result<Self, ParseError>)
        ensures
            r matches Ok(id) ==> parse_spec(s@) == Ok::<(Seq<char>, Seq<char>), ParseError>(
                (id.namespace_view(), id.path_view()),
            ),
            r matches Err(e) ==> parse_spec(s@) == Err::<(Seq<char>, Seq<char>), ParseError>(e),
    {
        let n = s.unicode_len();
        if n == 0 {
            return Err(ParseError::EmptyString);
        }
        let mut colons: usize = 0;
        let mut first: usize = n;
        let mut i: usize = 0;
        while i < n
            invariant
                n == s@.len(),
                i <= n,
                colons <= i,
                colons == colon_count(s@.subrange(0, i as int)),
                colons == 0 ==> first == n && forall|j: int| 0 <= j < i ==> s@[j] != ':',
                colons > 0 ==> first < i && s@[first as int] == ':' && first_colon(s@) == first,
            decreases n - i,
        {
            let c = s.get_char(i);
            proof {
                assert(s@.subrange(0, i + 1) =~= s@.subrange(0, i as int).push(c));
                lemma_colon_count_push(s@.subrange(0, i as int), c);
            }
            if c == ':' {
                if colons == 0 {
                    proof {
                        lemma_first_colon(s@, i as int);
                    }
                    first = i;
                }
                colons = colons + 1;
            }
            i = i + 1;
        }
        assert(s@.subrange(0, n as int) =~= s@);
        if colons == 0 {
            proof {
                reveal_strlit("minecraft");
            }
            let namespace = match ResourceNamespace::from_str("minecraft") {
                Ok(ns) => ns,
                Err(e) => {
                    assert(valid_namespace("minecraft"@));
                    return Err(e);
                },
            };
            let path = match ResourcePath::from_str(s) {
                Ok(p) => p,
                Err(e) => {
                    return Err(e);
                },
            };
            assert(namespace@ =~= default_namespace());
            Ok(MinecraftResourceIdentifier { namespace, path })
        } else if colons == 1 {
            let path = match ResourcePath::from_str(s.substring_char(first + 1, n)) {
                Ok(p) => p,
                Err(e) => {
                    return Err(e);
                },
            };
            let namespace = match ResourceNamespace::from_str(s.substring_char(0, first)) {
                Ok(ns) => ns,
                Err(e) => {
                    return Err(e);
                },
            };
            Ok(MinecraftResourceIdentifier { namespace, path })
        } else {
            Err(ParseError::TooManyColons)
        }
    }

    /// The text `namespace:path`.
    pub fn to_string(&self) -> (r: String)
        ensures
            r@ == self.namespace_view() + seq![':'] + self.path_view(),
    {
        proof {
            reveal_strlit(":");
        }
        let mut s = self.namespace.to_string();
        s.append(":");
        s.append(self.path.0.as_str());
        assert(s@ =~= self.namespace_view() + seq![':'] + self.path_view());
        s
    }

    /// The model file of a block, `assets/<namespace>/models/block/<name>.json`,
    /// for a path `block/<name>`; `None` for a path outside `block/` or whose
    /// name is empty, `.` or `..`.
    pub fn into_path(self) -> (r: Option<String>)
        ensures
            r matches Some(t) ==> model_path_spec(self.namespace_view(), self.path_view()) == Some(
                t@,
            ),
            r is None <==> model_path_spec(self.namespace_view(), self.path_view()) is None,
    {
        proof {
            reveal_strlit("assets/");
            reveal_strlit("/models/block/");
            reveal_strlit(".json");
        }
        let p = self.path.0.as_str();
        let n = p.unicode_len();
        let i = index_from(p, '/', 0);
        if i == n || !is_block(p.substring_char(0, i)) {
            return None;
        }
        let j = index_from(p, '/', i + 1);
        let name = p.substring_char(i + 1, j);
        if !is_plain_name(name) {
            return None;
        }
        let mut out = String::from_str("assets/");
        out.append(self.namespace.0.as_str());
        out.append("/models/block/");
        push_stem(&mut out, name);
        out.append(".json");
        assert(out@ =~= model_path_spec(self.namespace_view(), self.path_view())->0);
        Some(out)
    }

    /// The model file of a block under the resource pack directory `base`.
    pub fn into_prefixed_path(self, base: &str) -> (r: Option<String>)
        ensures
            r is None <==> model_path_spec(self.namespace_view(), self.path_view()) is None,
            r matches Some(t) ==> t@ == join_spec(
                base@,
                model_path_spec(self.namespace_view(), self.path_view())->0,
            ),
    {
        proof {
            reveal_strlit("/");
        }
        match self.into_path() {
            Some(rel) => {
                let mut out = String::from_str(base);
                let n = base.unicode_len();
                if n > 0 && base.get_char(n - 1) != '/' {
                    out.append("/");
                }
                out.append(rel.as_str());
                Some(out)
            },
            None => None,
        }
    }

    /// The texture file `assets/<namespace>/textures/<path>.png`, the
    /// extension of the path's last segment replaced; `None` for a path that
    /// is empty, starts or ends with `/`, or ends in a `.` or `..` segment.
    pub fn into_texture_path(self) -> (r: Option<String>)
        ensures
            r is None <==> texture_path_spec(self.namespace_view(), self.path_view()) is None,
            r matches Some(t) ==> texture_path_spec(self.namespace_view(), self.path_view())
                == Some(t@),
    {
        proof {
            reveal_strlit("assets/");
            reveal_strlit("/textures/");
            reveal_strlit("png");
            reveal_strlit(".");
        }
        let p = self.path.0.as_str();
        let n = p.unicode_len();
        if n == 0 || p.get_char(0) == '/' {
            return None;
        }
        let k = last_before(p, '/', n);
        let dir_end: usize = match k {
            Some(k) => k + 1,
            None => 0,
        };
        let name = p.substring_char(dir_end, n);
        if !is_plain_name(name) {
            return None;
        }
        let mut out = String::from_str("assets/");
        out.append(self.namespace.0.as_str());
        out.append("/textures/");
        out.append(p.substring_char(0, dir_end));
        push_stem(&mut out, name);
        out.append(".");
        out.append("png");
        assert(out@ =~= texture_path_spec(self.namespace_view(), self.path_view())->0);
        Some(out)
    }
}

/// Whether a last path segment is an ordinary file name: not empty, `.` or `..`.
pub open spec fn plain_name(name: Seq<char>) -> bool {
    name.len() > 0 && name != seq!['.'] && name != seq!['.', '.']
}

fn is_plain_name(name: &str) -> (r: bool)
    ensures
        r == plain_name(name@),
{
    let n = name.unicode_len();
    if n == 0 {
        return false;
    }
    if n == 1 && name.get_char(0) == '.' {
        assert(name@ =~= seq!['.']);
        return false;
    }
    if n == 2 && name.get_char(0) == '.' && name.get_char(1) == '.' {
        assert(name@ =~= seq!['.', '.']);
        return false;
    }
    if n == 1 {
        assert(name@ != seq!['.']) by {
            assert(name@[0] != '.');
        }
    }
    if n == 2 {
        assert(name@ != seq!['.', '.']) by {
            assert(name@[0] != '.' || name@[1] != '.');
        }
    }
    true
}

/// `rel` under the directory `base`, as a path join writes it.
pub open spec fn join_spec(base: Seq<char>, rel: Seq<char>) -> Seq<char> {
    if base.len() == 0 || base.last() == '/' {
        base + rel
    } else {
        base + seq!['/'] + rel
    }
}

/// The texture file of a resource: `assets/<namespace>/textures/<path>.png`,
/// for paths that name a file.
pub open spec fn texture_path_spec(namespace: Seq<char>, path: Seq<char>) -> Option<Seq<char>> {
    let k = last_before_spec(path, '/', path.len() as int);
    if path.len() == 0 || path[0] == '/' || !plain_name(path.subrange(k + 1, path.len() as int)) {
        None
    } else {
        Some(
            seq!['a', 's', 's', 'e', 't', 's', '/'] + namespace + seq![
                '/',
                't',
                'e',
                'x',
                't',
                'u',
                'r',
                'e',
                's',
                '/',
            ] + with_extension(path, seq!['p', 'n', 'g']),
        )
    }
}

/// Index of the first `c` in `s` at or after `from`, or the length of `s`.
pub open spec fn index_from_spec(s: Seq<char>, c: char, from: int) -> int
    decreases s.len() - from,
{
    if from >= s.len() {
        s.len() as int
    } else if s[from] == c {
        from
    } else {
        index_from_spec(s, c, from + 1)
    }
}

/// Index of the last `c` in `s` before `end`, or -1.
pub open spec fn last_before_spec(s: Seq<char>, c: char, end: int) -> int
    decreases end,
{
    if end <= 0 {
        -1
    } else if s[end - 1] == c {
        end - 1
    } else {
        last_before_spec(s, c, end - 1)
    }
}

/// A file name without its extension: the part before its last `.`, unless
/// that `.` opens the name.
pub open spec fn file_stem(name: Seq<char>) -> Seq<char> {
    let d = last_before_spec(name, '.', name.len() as int);
    if d <= 0 {
        name
    } else {
        name.subrange(0, d)
    }
}

/// `path` with the extension of its last `/`-separated segment set to `ext`.
pub open spec fn with_extension(path: Seq<char>, ext: Seq<char>) -> Seq<char> {
    let k = last_before_spec(path, '/', path.len() as int);
    path.subrange(0, k + 1) + file_stem(path.subrange(k + 1, path.len() as int)) + seq!['.'] + ext
}

/// The model file of the block that a `block/<name>` path names.
pub open spec fn model_path_spec(namespace: Seq<char>, path: Seq<char>) -> Option<Seq<char>> {
    let i = index_from_spec(path, '/', 0);
    let name = path.subrange(i + 1, index_from_spec(path, '/', i + 1));
    if i == path.len() || path.subrange(0, i) != seq!['b', 'l', 'o', 'c', 'k'] || !plain_name(
        name,
    ) {
        None
    } else {
        Some(
            seq!['a', 's', 's', 'e', 't', 's', '/'] + namespace + seq![
                '/',
                'm',
                'o',
                'd',
                'e',
                'l',
                's',
                '/',
                'b',
                'l',
                'o',
                'c',
                'k',
                '/',
            ] + file_stem(name) + seq!['.', 'j', 's', 'o', 'n'],
        )
    }
}

pub(crate) fn index_from(s: &str, c: char, from: usize) -> (r: usize)
    requires
        from <= s@.len(),
    ensures
        r == index_from_spec(s@, c, from as int),
        from <= r <= s@.len(),
{
    let n = s.unicode_len();
    let mut i: usize = from;
    while i < n && s.get_char(i) != c
        invariant
            n == s@.len(),
            from <= i <= n,
            index_from_spec(s@, c, from as int) == index_from_spec(s@, c, i as int),
        decreases n - i,
    {
        i = i + 1;
    }
    i
}

fn last_before(s: &str, c: char, end: usize) -> (r: Option<usize>)
    requires
        end <= s@.len(),
    ensures
        r matches Some(k) ==> k == last_before_spec(s@, c, end as int) && k < end,
        r is None ==> last_before_spec(s@, c, end as int) == -1,
{
    let mut e: usize = end;
    while e > 0 && s.get_char(e - 1) != c
        invariant
            e <= end <= s@.len(),
            last_before_spec(s@, c, end as int) == last_before_spec(s@, c, e as int),
        decreases e,
    {
        e = e - 1;
    }
    if e == 0 {
        None
    } else {
        Some(e - 1)
    }
}

fn is_block(s: &str) -> (r: bool)
    ensures
        r == (s@ == seq!['b', 'l', 'o', 'c', 'k']),
{
    if s.unicode_len() != 5 {
        return false;
    }
    let r = s.get_char(0) == 'b' && s.get_char(1) == 'l' && s.get_char(2) == 'o' && s.get_char(3)
        == 'c' && s.get_char(4) == 'k';
    if r {
        assert(s@ =~= seq!['b', 'l', 'o', 'c', 'k']);
    }
    r
}

/// Appends the stem of the file name `name` to `out`.
fn push_stem(out: &mut String, name: &str)
    ensures
        final(out)@ == old(out)@ + file_stem(name@),
{
    let n = name.unicode_len();
    match last_before(name, '.', n) {
        Some(d) => {
            if d == 0 {
                out.append(name);
                assert(name@.subrange(0, name@.len() as int) =~= name@);
            } else {
                out.append(name.substring_char(0, d));
            }
        },
        None => {
            out.append(name);
        },
    }
}

} // verus!
