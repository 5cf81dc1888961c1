use vstd::prelude::*;

use crate::resource_identifier::{parse_spec, MinecraftResourceIdentifier, ParseError};

verus! {

/// A side of a block.
#[derive(Clone, Copy, Debug, PartialEq, Eq, Hash, Structural)]
pub enum Facing {
    Up,
    Down,
    North,
    South,
    East,
    West,
}

/// The lower-case name of a side, as resource packs write it.
pub open spec fn facing_name(f: Facing) -> Seq<char> {
    match f {
        Facing::Up => seq!['u', 'p'],
        Facing::Down => seq!['d', 'o', 'w', 'n'],
        Facing::North => seq!['n', 'o', 'r', 't', 'h'],
        Facing::South => seq!['s', 'o', 'u', 't', 'h'],
        Facing::East => seq!['e', 'a', 's', 't'],
        Facing::West => seq!['w', 'e', 's', 't'],
    }
}

impl Facing {
    /// The lower-case name of the side, as resource packs write it.
    pub fn name(&self) -> (r: &'static str)
        ensures
            r@ == facing_name(*self),
    {
        proof {
            reveal_strlit("up");
            reveal_strlit("down");
            reveal_strlit("north");
            reveal_strlit("south");
            reveal_strlit("east");
            reveal_strlit("west");
        }
        match self {
            Facing::Up => "up",
            Facing::Down => "down",
            Facing::North => "north",
            Facing::South => "south",
            Facing::East => "east",
            Facing::West => "west",
        }
    }
}

/// One face of a model element: a texture reference, `#name` or a resource identifier.
#[derive(Clone, Debug)]
pub struct Face {
    pub texture: String,
}

/// The faces of a model element, by side.
#[derive(Clone, Debug)]
pub struct BlockTextures {
    pub down: Option<Face>,
    pub up: Option<Face>,
    pub north: Option<Face>,
    pub south: Option<Face>,
    pub west: Option<Face>,
    pub east: Option<Face>,
}

/// A box of a block model.
#[derive(Clone, Debug)]
pub struct Element {
    pub faces: BlockTextures,
}

/// A block model: its parent, its texture variables and its elements.
#[derive(Clone, Debug)]
pub struct Model {
    pub parent: Option<MinecraftResourceIdentifier>,
    pub textures: Option<Vec<(String, String)>>,
    pub elements: Option<Vec<Element>>,
}

/// The face of `faces` on side `facing`.
pub open spec fn face_spec(faces: BlockTextures, facing: Facing) -> Option<Face> {
    match facing {
        Facing::Up => faces.up,
        Facing::Down => faces.down,
        Facing::North => faces.north,
        Facing::South => faces.south,
        Facing::East => faces.east,
        Facing::West => faces.west,
    }
}

impl Face {
    /// A face with the same texture reference.
    pub fn copy(&self) -> (r: Face)
        ensures
            r.texture@ == self.texture@,
    {
        Face { texture: String::from_str(self.texture.as_str()) }
    }
}

impl BlockTextures {
    /// The face on side `facing`, if the element has one.
    pub fn get(&self, facing: Facing) -> (r: Option<Face>)
        ensures
            r is None <==> face_spec(*self, facing) is None,
            r matches Some(f) ==> f.texture@ == face_spec(*self, facing)->0.texture@,
    {
        let face = match facing {
            Facing::Up => &self.up,
            Facing::Down => &self.down,
            Facing::North => &self.north,
            Facing::South => &self.south,
            Facing::East => &self.east,
            Facing::West => &self.west,
        };
        match face {
            Some(f) => Some(f.copy()),
            None => None,
        }
    }
}

/// `t` without a leading `#`.
pub open spec fn strip_hash(t: Seq<char>) -> Seq<char> {
    if t.len() > 0 && t[0] == '#' {
        t.drop_first()
    } else {
        t
    }
}

/// Texture variables as names and values.
pub open spec fn vars_view(vars: Seq<(String, String)>) -> Seq<(Seq<char>, Seq<char>)> {
    Seq::new(vars.len(), |i: int| (vars[i].0@, vars[i].1@))
}

/// The value of the first variable named `key` in `vars`, from index `from` on.
pub open spec fn lookup_var(vars: Seq<(Seq<char>, Seq<char>)>, key: Seq<char>, from: int) -> Option<
    Seq<char>,
>
    decreases vars.len() - from,
{
    if from < 0 || from >= vars.len() {
        None
    } else if vars[from].0 == key {
        Some(vars[from].1)
    } else {
        lookup_var(vars, key, from + 1)
    }
}

/// The texture of side `facing` that the first element from `from` on
/// names and the variables define.
pub open spec fn side_from(
    elements: Seq<Element>,
    vars: Seq<(Seq<char>, Seq<char>)>,
    facing: Facing,
    from: int,
) -> Option<Seq<char>>
    decreases elements.len() - from,
{
    if from < 0 || from >= elements.len() {
        None
    } else {
        match face_spec(elements[from].faces, facing) {
            Some(f) => match lookup_var(vars, strip_hash(f.texture@), 0) {
                Some(v) => Some(v),
                None => side_from(elements, vars, facing, from + 1),
            },
            None => side_from(elements, vars, facing, from + 1),
        }
    }
}

/// The texture that a model shows on side `facing`; a model without
/// elements or texture variables shows none.
pub open spec fn side_texture(m: Model, facing: Facing) -> Option<Seq<char>> {
    match (m.elements, m.textures) {
        (Some(els), Some(vars)) => side_from(els@, vars_view(vars@), facing, 0),
        _ => None,
    }
}

/// Whether `a` and `b` hold the same characters.
fn str_eq(a: &str, b: &str) -> (r: bool)
    ensures
        r == (a@ == b@),
{
    let n = a.unicode_len();
    if n != b.unicode_len() {
        return false;
    }
    let mut i: usize = 0;
    while i < n
        invariant
            n == a@.len(),
            n == b@.len(),
            i <= n,
            forall|j: int| 0 <= j < i ==> a@[j] == b@[j],
        decreases n - i,
    {
        if a.get_char(i) != b.get_char(i) {
            return false;
        }
        i = i + 1;
    }
    assert(a@ =~= b@);
    true
}

/// The value of the first variable of `vars` named `key`.
fn find_var<'a>(vars: &'a Vec<(String, String)>, key: &str) -> (r: Option<&'a String>)
    ensures
        r is None <==> lookup_var(vars_view(vars@), key@, 0) is None,
        r matches Some(v) ==> lookup_var(vars_view(vars@), key@, 0) == Some(v@),
{
    let mut i: usize = 0;
    while i < vars.len()
        invariant
            i <= vars@.len(),
            lookup_var(vars_view(vars@), key@, 0) == lookup_var(vars_view(vars@), key@, i as int),
        decreases vars@.len() - i,
    {
        if str_eq(vars[i].0.as_str(), key) {
            return Some(&vars[i].1);
        }
        i = i + 1;
    }
    None
}

impl Model {
    /// The resource identifier of the texture on side `facing`: the first
    /// element with a face there whose variable the model defines.
    pub fn get_side(&self, facing: Facing) -> (r: Result<Option<MinecraftResourceIdentifier>, ParseError>)
        ensures
            side_texture(*self, facing) is None <==> r matches Ok(None),
            r matches Ok(Some(id)) ==> parse_spec(side_texture(*self, facing)->0) == Ok::<
                (Seq<char>, Seq<char>),
                ParseError,
            >((id.namespace_view(), id.path_view())),
            r matches Err(e) ==> parse_spec(side_texture(*self, facing)->0) == Err::<
                (Seq<char>, Seq<char>),
                ParseError,
            >(e),
    {
        let elements = match &self.elements {
            Some(els) => els,
            None => {
                return Ok(None);
            },
        };
        let vars = match &self.textures {
            Some(vars) => vars,
            None => {
                return Ok(None);
            },
        };
        let mut i: usize = 0;
        while i < elements.len()
            invariant
                self.elements == Some(*elements),
                self.textures == Some(*vars),
                i <= elements@.len(),
                side_texture(*self, facing) == side_from(elements@, vars_view(vars@), facing, i as int),
            decreases elements@.len() - i,
        {
            match elements[i].faces.get(facing) {
                Some(face) => {
                    let t = face.texture.as_str();
                    let key = if t.unicode_len() > 0 && t.get_char(0) == '#' {
                        t.substring_char(1, t.unicode_len())
                    } else {
                        t
                    };
                    assert(key@ =~= strip_hash(face_spec(elements@[i as int].faces, facing)->0.texture@));
                    match find_var(vars, key) {
                        Some(v) => {
                            return match MinecraftResourceIdentifier::from_str(v.as_str()) {
                                Ok(id) => Ok(Some(id)),
                                Err(e) => Err(e),
                            };
                        },
                        None => {},
                    }
                },
                None => {},
            }
            i = i + 1;
        }
        Ok(None)
    }
}

/// `acc` extended, in order, by the variables of `child` from index `i` on
/// whose names it does not define yet.
pub open spec fn union_from(
    acc: Seq<(Seq<char>, Seq<char>)>,
    child: Seq<(Seq<char>, Seq<char>)>,
    i: int,
) -> Seq<(Seq<char>, Seq<char>)>
    decreases child.len() - i,
{
    if i < 0 || i >= child.len() {
        acc
    } else if lookup_var(acc, child[i].0, 0) is Some {
        union_from(acc, child, i + 1)
    } else {
        union_from(acc.push(child[i]), child, i + 1)
    }
}

/// Whether a texture value refers to another variable.
pub open spec fn is_reference(v: Seq<char>) -> bool {
    v.len() > 0 && v[0] == '#'
}

/// `vars` with the references at index `i` and after replaced, in order, by
/// the value that the named variable has at that point; a reference to an
/// undefined variable stays.
pub open spec fn resolve_from(vars: Seq<(Seq<char>, Seq<char>)>, i: int) -> Seq<(Seq<char>, Seq<char>)>
    decreases vars.len() - i,
{
    if i < 0 || i >= vars.len() {
        vars
    } else if is_reference(vars[i].1) && lookup_var(vars, vars[i].1.drop_first(), 0) is Some {
        resolve_from(
            vars.update(i, (vars[i].0, lookup_var(vars, vars[i].1.drop_first(), 0)->0)),
            i + 1,
        )
    } else {
        resolve_from(vars, i + 1)
    }
}

/// The texture variables of a model that inherits from a parent: the
/// parent's, then the child's that the parent does not define, with
/// references resolved.
pub open spec fn merged_vars(
    child: Option<Seq<(Seq<char>, Seq<char>)>>,
    parent: Option<Seq<(Seq<char>, Seq<char>)>>,
) -> Option<Seq<(Seq<char>, Seq<char>)>> {
    match (child, parent) {
        (None, None) => None,
        (Some(c), None) => Some(resolve_from(c, 0)),
        (None, Some(p)) => Some(resolve_from(p, 0)),
        (Some(c), Some(p)) => Some(resolve_from(union_from(p, c, 0), 0)),
    }
}

/// Optional texture variables as names and values.
pub open spec fn opt_vars_view(v: Option<Vec<(String, String)>>) -> Option<
    Seq<(Seq<char>, Seq<char>)>,
> {
    match v {
        Some(vars) => Some(vars_view(vars@)),
        None => None,
    }
}

fn copy_string(s: &String) -> (r: String)
    ensures
        r@ == s@,
{
    String::from_str(s.as_str())
}

/// Whether `vars` defines `key`.
fn defines(vars: &Vec<(String, String)>, key: &str) -> (r: bool)
    ensures
        r == lookup_var(vars_view(vars@), key@, 0) is Some,
{
    find_var(vars, key).is_some()
}

/// Adds to `acc` each variable of `child` whose name it does not define yet.
fn union_vars(acc: &mut Vec<(String, String)>, child: Vec<(String, String)>)
    ensures
        vars_view(final(acc)@) == union_from(vars_view(old(acc)@), vars_view(child@), 0),
{
    let ghost c = vars_view(child@);
    let mut i: usize = 0;
    while i < child.len()
        invariant
            c == vars_view(child@),
            i <= child@.len(),
            union_from(vars_view(old(acc)@), c, 0) == union_from(vars_view(acc@), c, i as int),
        decreases child@.len() - i,
    {
        let key = child[i].0.as_str();
        if !defines(acc, key) {
            let entry = (copy_string(&child[i].0), copy_string(&child[i].1));
            let ghost before = vars_view(acc@);
            acc.push(entry);
            assert(vars_view(acc@) =~= before.push(c[i as int]));
        }
        i = i + 1;
    }
}

/// Replaces, in order, each reference `#name` by the value that `name` has
/// at that point, where it is defined.
fn resolve_vars(vars: &mut Vec<(String, String)>)
    ensures
        vars_view(final(vars)@) == resolve_from(vars_view(old(vars)@), 0),
{
    let n = vars.len();
    let mut i: usize = 0;
    while i < n
        invariant
            n == vars@.len(),
            i <= n,
            resolve_from(vars_view(old(vars)@), 0) == resolve_from(vars_view(vars@), i as int),
        decreases n - i,
    {
        let ghost cur = vars_view(vars@);
        let v = vars[i].1.as_str();
        let vlen = v.unicode_len();
        if vlen > 0 && v.get_char(0) == '#' {
            let target = v.substring_char(1, vlen);
            assert(target@ =~= cur[i as int].1.drop_first());
            match find_var(vars, target) {
                Some(value) => {
                    let new_value = copy_string(value);
                    let key = copy_string(&vars[i].0);
                    vars.set(i, (key, new_value));
                    assert(vars_view(vars@) =~= cur.update(
                        i as int,
                        (cur[i as int].0, lookup_var(cur, cur[i as int].1.drop_first(), 0)->0),
                    ));
                },
                None => {},
            }
        }
        i = i + 1;
    }
}

impl Model {
    /// What a model inherits from `parent`, the model that its `parent`
    /// field names: the parent's parent, the merged texture variables and
    /// the parent's elements followed by its own.
    pub fn inherit(self, parent: Model) -> (r: Model)
        ensures
            r.parent == parent.parent,
            opt_vars_view(r.textures) == merged_vars(
                opt_vars_view(self.textures),
                opt_vars_view(parent.textures),
            ),
            r.elements matches Some(e) ==> e@ == (match parent.elements {
                Some(p) => p@,
                None => Seq::empty(),
            }) + (match self.elements {
                Some(c) => c@,
                None => Seq::empty(),
            }),
            r.elements is None <==> (self.elements is None && parent.elements is None),
    {
        let Model { parent: _, textures: child_textures, elements: child_elements } = self;
        let Model { parent: grandparent, textures: parent_textures, elements: parent_elements } =
            parent;
        let textures = match (child_textures, parent_textures) {
            (None, None) => None,
            (Some(mut c), None) => {
                resolve_vars(&mut c);
                Some(c)
            },
            (None, Some(mut p)) => {
                resolve_vars(&mut p);
                Some(p)
            },
            (Some(c), Some(mut p)) => {
                union_vars(&mut p, c);
                resolve_vars(&mut p);
                Some(p)
            },
        };
        let elements = match child_elements {
            Some(mut c) => {
                let mut e = match parent_elements {
                    Some(p) => p,
                    None => Vec::new(),
                };
                e.append(&mut c);
                Some(e)
            },
            None => parent_elements,
        };
        Model { parent: grandparent, textures, elements }
    }
}

} // verus!
