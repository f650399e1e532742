//! Materials and the libraries that define them.

use vstd::prelude::*;
use crate::number::{decimal_of, integer_of, parse_decimal, parse_integer, Decimal};
use crate::scan::{line_next, line_tokens, read_line, texts, unfold, unfolded};
use crate::text::{decode, is_word, lossy_text, spells, stem, stem_of, word, word_at};

verus! {

/// The material number of a polygon that was read under no material.
pub const NO_MATERIAL: u32 = 0xFFFF_FFFF;

/// What a `Texture` holds, with its texts as sequences of characters.
pub struct TextureView {
    pub name: Seq<char>,
    pub path: Seq<char>,
}

/// A reference to an image: the path as the library writes it, and the
/// name, which is the stem of that path. The image itself is not read.
#[derive(Debug)]
pub struct Texture {
    pub name: String,
    pub path: String,
}

impl View for Texture {
    type V = TextureView;

    open spec fn view(&self) -> TextureView {
        TextureView { name: self.name@, path: self.path@ }
    }
}

/// The texture that the word `file` refers to.
pub open spec fn texture_of(file: Seq<u8>) -> TextureView {
    TextureView { name: lossy_text(stem_of(file)), path: lossy_text(file) }
}

impl TextureView {
    /// No texture: an empty name and an empty path.
    pub open spec fn none() -> TextureView {
        TextureView { name: Seq::empty(), path: Seq::empty() }
    }
}

impl Clone for Texture {
    fn clone(&self) -> (r: Texture)
        ensures
            r@ == self@,
    {
        Texture { name: self.name.clone(), path: self.path.clone() }
    }
}

impl Texture {
    /// The name of the texture.
    pub fn name(&self) -> (r: &str)
        ensures
            r@ == self@.name,
    {
        self.name.as_str()
    }

    /// The path of the texture.
    pub fn path(&self) -> (r: &str)
        ensures
            r@ == self@.path,
    {
        self.path.as_str()
    }

    /// No texture.
    pub fn none() -> (t: Texture)
        ensures
            t@ == TextureView::none(),
    {
        Texture { name: String::new(), path: String::new() }
    }

    /// The texture that the word `file` refers to.
    pub fn of(file: &[u8]) -> (t: Texture)
        ensures
            t@ == texture_of(file@),
    {
        Texture { name: decode(stem(file)), path: decode(file) }
    }
}

/// What a `Material` holds, with its texts as sequences of characters.
pub struct MaterialView {
    pub name: Seq<char>,
    pub ka: [Decimal; 3],
    pub kd: [Decimal; 3],
    pub ks: [Decimal; 3],
    pub ke: [Decimal; 3],
    pub kt: [Decimal; 3],
    pub ns: Decimal,
    pub ni: Decimal,
    pub tf: [Decimal; 3],
    pub d: Decimal,
    pub illum: i32,
    pub map_ka: TextureView,
    pub map_kd: TextureView,
    pub map_ks: TextureView,
    pub map_ke: TextureView,
    pub map_kt: TextureView,
    pub map_ns: TextureView,
    pub map_ni: TextureView,
    pub map_d: TextureView,
    pub map_bump: TextureView,
}

/// A material: its name, its coefficients and its textures.
#[derive(Debug)]
pub struct Material {
    pub name: String,
    pub ka: [Decimal; 3],
    pub kd: [Decimal; 3],
    pub ks: [Decimal; 3],
    pub ke: [Decimal; 3],
    pub kt: [Decimal; 3],
    pub ns: Decimal,
    pub ni: Decimal,
    pub tf: [Decimal; 3],
    pub d: Decimal,
    pub illum: i32,
    pub map_ka: Texture,
    pub map_kd: Texture,
    pub map_ks: Texture,
    pub map_ke: Texture,
    pub map_kt: Texture,
    pub map_ns: Texture,
    pub map_ni: Texture,
    pub map_d: Texture,
    pub map_bump: Texture,
}

impl View for Material {
    type V = MaterialView;

    open spec fn view(&self) -> MaterialView {
        MaterialView {
            name: self.name@,
            ka: self.ka,
            kd: self.kd,
            ks: self.ks,
            ke: self.ke,
            kt: self.kt,
            ns: self.ns,
            ni: self.ni,
            tf: self.tf,
            d: self.d,
            illum: self.illum,
            map_ka: self.map_ka@,
            map_kd: self.map_kd@,
            map_ks: self.map_ks@,
            map_ke: self.map_ke@,
            map_kt: self.map_kt@,
            map_ns: self.map_ns@,
            map_ni: self.map_ni@,
            map_d: self.map_d@,
            map_bump: self.map_bump@,
        }
    }
}

/// One of the things that a library says of a material.
#[derive(Clone, Copy, Debug)]
pub enum Property {
    /// The ambient colour, `Ka`.
    Ambient,
    /// The diffuse colour, `Kd`.
    Diffuse,
    /// The specular colour, `Ks`.
    Specular,
    /// The emissive colour, `Ke`.
    Emissive,
    /// The transmittance, `Kt`.
    Transmittance,
    /// The specular exponent, `Ns`.
    Shininess,
    /// The optical density, `Ni`.
    Refraction,
    /// The transmission filter, `Tf`.
    Filter,
    /// The opacity, `d`.
    Dissolve,
    /// The illumination model, `illum`.
    Illumination,
    /// The texture `map_Ka`.
    MapAmbient,
    /// The texture `map_Kd`.
    MapDiffuse,
    /// The texture `map_Ks`.
    MapSpecular,
    /// The texture `map_Ke`.
    MapEmissive,
    /// The texture `map_Kt`.
    MapTransmittance,
    /// The texture `map_Ns`.
    MapShininess,
    /// The texture `map_Ni`.
    MapRefraction,
    /// The texture `map_d`.
    MapDissolve,
    /// The texture `map_bump`.
    MapBump,
}

/// What a line of a library does, as its first word tells.
#[derive(Clone, Copy, Debug)]
pub enum Statement {
    /// `newmtl`: a new material starts.
    Start,
    /// The line sets a property of the material that was started last.
    Assign(Property),
    /// Any other line: it is passed over.
    Other,
}

/// What a line does whose first word is `w`.
pub open spec fn statement_of(w: Seq<u8>) -> Statement {
    if spells(w, "newmtl") {
        Statement::Start
    }
    else if spells(w, "Ka") {
        Statement::Assign(Property::Ambient)
    }
    else if spells(w, "Kd") {
        Statement::Assign(Property::Diffuse)
    }
    else if spells(w, "Ks") {
        Statement::Assign(Property::Specular)
    }
    else if spells(w, "Ke") {
        Statement::Assign(Property::Emissive)
    }
    else if spells(w, "Kt") {
        Statement::Assign(Property::Transmittance)
    }
    else if spells(w, "Ns") {
        Statement::Assign(Property::Shininess)
    }
    else if spells(w, "Ni") {
        Statement::Assign(Property::Refraction)
    }
    else if spells(w, "Tf") {
        Statement::Assign(Property::Filter)
    }
    else if spells(w, "d") {
        Statement::Assign(Property::Dissolve)
    }
    else if spells(w, "illum") {
        Statement::Assign(Property::Illumination)
    }
    else if spells(w, "map_Ka") {
        Statement::Assign(Property::MapAmbient)
    }
    else if spells(w, "map_Kd") {
        Statement::Assign(Property::MapDiffuse)
    }
    else if spells(w, "map_Ks") {
        Statement::Assign(Property::MapSpecular)
    }
    else if spells(w, "map_Ke") {
        Statement::Assign(Property::MapEmissive)
    }
    else if spells(w, "map_Kt") {
        Statement::Assign(Property::MapTransmittance)
    }
    else if spells(w, "map_Ns") {
        Statement::Assign(Property::MapShininess)
    }
    else if spells(w, "map_Ni") {
        Statement::Assign(Property::MapRefraction)
    }
    else if spells(w, "map_d") {
        Statement::Assign(Property::MapDissolve)
    }
    else if spells(w, "map_bump") {
        Statement::Assign(Property::MapBump)
    }
    else {
        Statement::Other
    }
}

/// Tells what a line does whose first word is `w`.
pub fn classify(w: &[u8]) -> (s: Statement)
    ensures
        s == statement_of(w@),
{
    proof {
        reveal_strlit("newmtl");
        reveal_strlit("Ka");
        reveal_strlit("Kd");
        reveal_strlit("Ks");
        reveal_strlit("Ke");
        reveal_strlit("Kt");
        reveal_strlit("Ns");
        reveal_strlit("Ni");
        reveal_strlit("Tf");
        reveal_strlit("d");
        reveal_strlit("illum");
        reveal_strlit("map_Ka");
        reveal_strlit("map_Kd");
        reveal_strlit("map_Ks");
        reveal_strlit("map_Ke");
        reveal_strlit("map_Kt");
        reveal_strlit("map_Ns");
        reveal_strlit("map_Ni");
        reveal_strlit("map_d");
        reveal_strlit("map_bump");
    }
    if is_word(w, "newmtl") {
        Statement::Start
    }
    else if is_word(w, "Ka") {
        Statement::Assign(Property::Ambient)
    }
    else if is_word(w, "Kd") {
        Statement::Assign(Property::Diffuse)
    }
    else if is_word(w, "Ks") {
        Statement::Assign(Property::Specular)
    }
    else if is_word(w, "Ke") {
        Statement::Assign(Property::Emissive)
    }
    else if is_word(w, "Kt") {
        Statement::Assign(Property::Transmittance)
    }
    else if is_word(w, "Ns") {
        Statement::Assign(Property::Shininess)
    }
    else if is_word(w, "Ni") {
        Statement::Assign(Property::Refraction)
    }
    else if is_word(w, "Tf") {
        Statement::Assign(Property::Filter)
    }
    else if is_word(w, "d") {
        Statement::Assign(Property::Dissolve)
    }
    else if is_word(w, "illum") {
        Statement::Assign(Property::Illumination)
    }
    else if is_word(w, "map_Ka") {
        Statement::Assign(Property::MapAmbient)
    }
    else if is_word(w, "map_Kd") {
        Statement::Assign(Property::MapDiffuse)
    }
    else if is_word(w, "map_Ks") {
        Statement::Assign(Property::MapSpecular)
    }
    else if is_word(w, "map_Ke") {
        Statement::Assign(Property::MapEmissive)
    }
    else if is_word(w, "map_Kt") {
        Statement::Assign(Property::MapTransmittance)
    }
    else if is_word(w, "map_Ns") {
        Statement::Assign(Property::MapShininess)
    }
    else if is_word(w, "map_Ni") {
        Statement::Assign(Property::MapRefraction)
    }
    else if is_word(w, "map_d") {
        Statement::Assign(Property::MapDissolve)
    }
    else if is_word(w, "map_bump") {
        Statement::Assign(Property::MapBump)
    }
    else {
        Statement::Other
    }
}

/// The three numbers that follow the first word of a line. A number that
/// is missing is 0.
pub open spec fn triple_of(words: Seq<Seq<u8>>) -> [Decimal; 3] {
    [decimal_of(word(words, 1)), decimal_of(word(words, 2)), decimal_of(word(words, 3))]
}

/// Reads the three numbers that follow the first word of a line.
pub fn read_triple(words: &[&[u8]]) -> (r: [Decimal; 3])
    ensures
        r == triple_of(texts(words@)),
{
    [
        parse_decimal(word_at(words, 1)),
        parse_decimal(word_at(words, 2)),
        parse_decimal(word_at(words, 3)),
    ]
}

impl MaterialView {
    /// A material that has only a name: diffuse colour, transmission
    /// filter, specular exponent, optical density and opacity are 1, the
    /// other colours 0, the illumination model is 1, and it has no texture.
    pub open spec fn fresh(name: Seq<char>) -> MaterialView {
        MaterialView {
            name,
            ka: [Decimal::zero(), Decimal::zero(), Decimal::zero()],
            kd: [Decimal::one(), Decimal::one(), Decimal::one()],
            ks: [Decimal::zero(), Decimal::zero(), Decimal::zero()],
            ke: [Decimal::zero(), Decimal::zero(), Decimal::zero()],
            kt: [Decimal::zero(), Decimal::zero(), Decimal::zero()],
            ns: Decimal::one(),
            ni: Decimal::one(),
            tf: [Decimal::one(), Decimal::one(), Decimal::one()],
            d: Decimal::one(),
            illum: 1,
            map_ka: TextureView::none(),
            map_kd: TextureView::none(),
            map_ks: TextureView::none(),
            map_ke: TextureView::none(),
            map_kt: TextureView::none(),
            map_ns: TextureView::none(),
            map_ni: TextureView::none(),
            map_d: TextureView::none(),
            map_bump: TextureView::none(),
        }
    }

    /// The material with the property `p` set as the line `words` says:
    /// a colour from three numbers, a coefficient from one, the
    /// illumination model from a whole number, a texture from a path.
    pub open spec fn with_property(self, p: Property, words: Seq<Seq<u8>>) -> MaterialView {
        match p {
            Property::Ambient => MaterialView { ka: triple_of(words), ..self },
            Property::Diffuse => MaterialView { kd: triple_of(words), ..self },
            Property::Specular => MaterialView { ks: triple_of(words), ..self },
            Property::Emissive => MaterialView { ke: triple_of(words), ..self },
            Property::Transmittance => MaterialView { kt: triple_of(words), ..self },
            Property::Shininess => MaterialView { ns: decimal_of(word(words, 1)), ..self },
            Property::Refraction => MaterialView { ni: decimal_of(word(words, 1)), ..self },
            Property::Filter => MaterialView { tf: triple_of(words), ..self },
            Property::Dissolve => MaterialView { d: decimal_of(word(words, 1)), ..self },
            Property::Illumination => MaterialView { illum: integer_of(word(words, 1)), ..self },
            Property::MapAmbient => MaterialView { map_ka: texture_of(word(words, 1)), ..self },
            Property::MapDiffuse => MaterialView { map_kd: texture_of(word(words, 1)), ..self },
            Property::MapSpecular => MaterialView { map_ks: texture_of(word(words, 1)), ..self },
            Property::MapEmissive => MaterialView { map_ke: texture_of(word(words, 1)), ..self },
            Property::MapTransmittance => MaterialView {
                map_kt: texture_of(word(words, 1)),
                ..self
            },
            Property::MapShininess => MaterialView { map_ns: texture_of(word(words, 1)), ..self },
            Property::MapRefraction => MaterialView { map_ni: texture_of(word(words, 1)), ..self },
            Property::MapDissolve => MaterialView { map_d: texture_of(word(words, 1)), ..self },
            Property::MapBump => MaterialView { map_bump: texture_of(word(words, 1)), ..self },
        }
    }
}

impl Clone for Material {
    fn clone(&self) -> (r: Material)
        ensures
            r@ == self@,
    {
        Material {
            name: self.name.clone(),
            ka: self.ka,
            kd: self.kd,
            ks: self.ks,
            ke: self.ke,
            kt: self.kt,
            ns: self.ns,
            ni: self.ni,
            tf: self.tf,
            d: self.d,
            illum: self.illum,
            map_ka: self.map_ka.clone(),
            map_kd: self.map_kd.clone(),
            map_ks: self.map_ks.clone(),
            map_ke: self.map_ke.clone(),
            map_kt: self.map_kt.clone(),
            map_ns: self.map_ns.clone(),
            map_ni: self.map_ni.clone(),
            map_d: self.map_d.clone(),
            map_bump: self.map_bump.clone(),
        }
    }
}

impl Material {
    /// The name of the material.
    pub fn name(&self) -> (r: &str)
        ensures
            r@ == self@.name,
    {
        self.name.as_str()
    }

    /// A material that has only a name.
    pub fn fresh(name: String) -> (m: Material)
        ensures
            m@ == MaterialView::fresh(name@),
    {
        Material {
            name,
            ka: [Decimal::zero(), Decimal::zero(), Decimal::zero()],
            kd: [Decimal::one(), Decimal::one(), Decimal::one()],
            ks: [Decimal::zero(), Decimal::zero(), Decimal::zero()],
            ke: [Decimal::zero(), Decimal::zero(), Decimal::zero()],
            kt: [Decimal::zero(), Decimal::zero(), Decimal::zero()],
            ns: Decimal::one(),
            ni: Decimal::one(),
            tf: [Decimal::one(), Decimal::one(), Decimal::one()],
            d: Decimal::one(),
            illum: 1,
            map_ka: Texture::none(),
            map_kd: Texture::none(),
            map_ks: Texture::none(),
            map_ke: Texture::none(),
            map_kt: Texture::none(),
            map_ns: Texture::none(),
            map_ni: Texture::none(),
            map_d: Texture::none(),
            map_bump: Texture::none(),
        }
    }

    /// Sets the property `p` as the line `words` says.
    pub fn set(&mut self, p: Property, words: &[&[u8]])
        ensures
            final(self)@ == old(self)@.with_property(p, texts(words@)),
    {
        match p {
            Property::Ambient => {
                self.ka = read_triple(words);
            },
            Property::Diffuse => {
                self.kd = read_triple(words);
            },
            Property::Specular => {
                self.ks = read_triple(words);
            },
            Property::Emissive => {
                self.ke = read_triple(words);
            },
            Property::Transmittance => {
                self.kt = read_triple(words);
            },
            Property::Shininess => {
                self.ns = parse_decimal(word_at(words, 1));
            },
            Property::Refraction => {
                self.ni = parse_decimal(word_at(words, 1));
            },
            Property::Filter => {
                self.tf = read_triple(words);
            },
            Property::Dissolve => {
                self.d = parse_decimal(word_at(words, 1));
            },
            Property::Illumination => {
                self.illum = parse_integer(word_at(words, 1));
            },
            Property::MapAmbient => {
                self.map_ka = Texture::of(word_at(words, 1));
            },
            Property::MapDiffuse => {
                self.map_kd = Texture::of(word_at(words, 1));
            },
            Property::MapSpecular => {
                self.map_ks = Texture::of(word_at(words, 1));
            },
            Property::MapEmissive => {
                self.map_ke = Texture::of(word_at(words, 1));
            },
            Property::MapTransmittance => {
                self.map_kt = Texture::of(word_at(words, 1));
            },
            Property::MapShininess => {
                self.map_ns = Texture::of(word_at(words, 1));
            },
            Property::MapRefraction => {
                self.map_ni = Texture::of(word_at(words, 1));
            },
            Property::MapDissolve => {
                self.map_d = Texture::of(word_at(words, 1));
            },
            Property::MapBump => {
                self.map_bump = Texture::of(word_at(words, 1));
            },
        }
    }
}

/// What a list of materials holds.
pub open spec fn material_views(materials: Seq<Material>) -> Seq<MaterialView> {
    materials.map_values(|m: Material| m@)
}

/// The materials after one more line of a library. `newmtl` adds a fresh
/// material under the name that follows it; a line that sets a property
/// changes the material that was added last, and does nothing before the
/// first `newmtl`; any other line does nothing.
pub open spec fn library_step(ms: Seq<MaterialView>, words: Seq<Seq<u8>>) -> Seq<MaterialView> {
    if words.len() == 0 {
        ms
    } else {
        match statement_of(words[0]) {
            Statement::Start => ms.push(MaterialView::fresh(lossy_text(word(words, 1)))),
            Statement::Assign(p) => if ms.len() > 0 {
                ms.update(ms.len() - 1, ms.last().with_property(p, words))
            } else {
                ms
            },
            Statement::Other => ms,
        }
    }
}

/// The materials after the lines of `text` from `from` on, where `ms` are
/// the materials before them.
pub open spec fn read_library(text: Seq<u8>, from: int, ms: Seq<MaterialView>) -> Seq<MaterialView>
    decreases text.len() - from,
{
    if 0 <= from < text.len() {
        proof {
            crate::scan::lemma_find(text, from, text.len() as int, crate::scan::Class::Newline);
        }
        read_library(text, line_next(text, from), library_step(ms, line_tokens(text, from)))
    } else {
        ms
    }
}

/// The materials that the library `bytes` defines, in the order of their
/// `newmtl` lines.
pub open spec fn library_of(bytes: Seq<u8>) -> Seq<MaterialView> {
    read_library(unfold(bytes), 0, Seq::empty())
}

/// Takes one line of a library into account.
fn library_line(materials: &mut Vec<Material>, words: &[&[u8]])
    ensures
        material_views(final(materials)@) == library_step(
            material_views(old(materials)@),
            texts(words@),
        ),
{
    if words.len() == 0 {
        return ;
    }
    let ghost before = materials@;
    match classify(words[0]) {
        Statement::Start => {
            materials.push(Material::fresh(decode(word_at(words, 1))));
            assert(material_views(materials@) =~= library_step(
                material_views(before),
                texts(words@),
            ));
        },
        Statement::Assign(p) => {
            if materials.len() > 0 {
                let mut last = materials.pop().unwrap();
                last.set(p, words);
                materials.push(last);
                assert(material_views(materials@) =~= library_step(
                    material_views(before),
                    texts(words@),
                ));
            }
        },
        Statement::Other => {},
    }
}

/// Reads a material library.
pub fn read_materials(bytes: &[u8]) -> (materials: Vec<Material>)
    ensures
        material_views(materials@) == library_of(bytes@),
{
    let text = unfolded(bytes);
    let mut materials: Vec<Material> = Vec::new();
    let mut at: usize = 0;
    assert(material_views(materials@) =~= Seq::empty());
    while at < text.len()
        invariant
            at <= text.len(),
            read_library(text@, at as int, material_views(materials@)) == library_of(bytes@),
        decreases text.len() - at,
    {
        let (words, next) = read_line(text.as_slice(), at);
        library_line(&mut materials, words.as_slice());
        at = next;
    }
    materials
}

/// The first place from `from` on of a material named `name` in `ms`, or
/// the length of `ms` where there is none.
pub open spec fn find_material(ms: Seq<MaterialView>, name: Seq<char>, from: int) -> int
    decreases ms.len() - from,
{
    if from >= ms.len() {
        ms.len() as int
    } else if ms[from].name == name {
        from
    } else {
        find_material(ms, name, from + 1)
    }
}

/// The number of the first material named `name`, or `NO_MATERIAL` where
/// none has that name.
pub open spec fn material_named(ms: Seq<MaterialView>, name: Seq<char>) -> u32 {
    if find_material(ms, name, 0) < ms.len() {
        find_material(ms, name, 0) as u32
    } else {
        NO_MATERIAL
    }
}

/// Looks up the material named `name`.
pub fn lookup_material(materials: &Vec<Material>, name: &String) -> (r: u32)
    requires
        materials.len() <= NO_MATERIAL,
    ensures
        r == material_named(material_views(materials@), name@),
        r == NO_MATERIAL || r < materials.len(),
{
    let mut i: usize = 0;
    while i < materials.len()
        invariant
            i <= materials.len() <= NO_MATERIAL,
            find_material(material_views(materials@), name@, 0) == find_material(
                material_views(materials@),
                name@,
                i as int,
            ),
        decreases materials.len() - i,
    {
        if materials[i].name.eq(name) {
            return i as u32;
        }
        i += 1;
    }
    NO_MATERIAL
}

} // verus!
