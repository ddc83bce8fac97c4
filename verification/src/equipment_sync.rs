//! New equipment before a release: weapons, armors, helmets, capes, boosters
//! and passives that the data API knows and the bundled `equipment.json` does
//! not have yet. The bundled JSON rules everything it already has; from the
//! API only what is missing comes in, in the alphabetical order of its
//! category.
//!
//! Nothing here becomes key presses, but everything is validated anyway, on
//! arrival and when the cache is read, and the icon name becomes a path on
//! disk.

use vstd::prelude::*;
use crate::data::{self, Armor, Cosmetic, Described, Equipment, Weapon};
use crate::data_sync;
use crate::text;
use vstd::string::StrSliceExecFns;

verus! {

/// Cache of the new items, in the configuration folder.
pub const CACHE_FILE: &'static str = "equipment-remote.json";

/// Format of the cache; another version is ignored whole.
pub const CACHE_VERSION: u32 = 1;

/// Prefix of the `imagem` of downloaded items, relative to `assets/icons/`.
pub const ICON_PREFIX: &'static str = "remote/equipment/";

/// Ceiling of new items per category in one sync. A patch brings two or
/// three; dozens at once is a broken API, and then the whole category stays out.
pub const MAX_NEW_PER_CATEGORY: usize = 12;

/// Text limits: short name and sheet, longer booster and passive descriptions.
pub const MAX_NAME_CHARS: usize = 80;
pub const MAX_TEXT_CHARS: usize = 400;

/// Category of an item, with the key of `equipment.json`.
#[derive(Debug, Clone, Copy, PartialEq, Eq, Structural, Hash)]
pub enum Category {
    Primary,
    Secondary,
    Grenade,
    Armor,
    Helmet,
    Cape,
    Booster,
    Passive,
}

impl Category {
    /// The categories, in the order the sync goes through them.
    pub open spec fn spec_all() -> Seq<Category> {
        seq![
            Category::Primary,
            Category::Secondary,
            Category::Grenade,
            Category::Armor,
            Category::Helmet,
            Category::Cape,
            Category::Booster,
            Category::Passive,
        ]
    }

    pub fn all() -> (r: Vec<Category>)
        ensures
            r@ == Self::spec_all(),
    {
        let r = vec![
            Category::Primary,
            Category::Secondary,
            Category::Grenade,
            Category::Armor,
            Category::Helmet,
            Category::Cape,
            Category::Booster,
            Category::Passive,
        ];
        assert(r@ =~= Self::spec_all());
        r
    }

    pub open spec fn spec_key(self) -> Seq<char> {
        match self {
            Category::Primary => "primary"@,
            Category::Secondary => "secondary"@,
            Category::Grenade => "grenade"@,
            Category::Armor => "armor"@,
            Category::Helmet => "helmet"@,
            Category::Cape => "cape"@,
            Category::Booster => "booster"@,
            Category::Passive => "passives"@,
        }
    }

    /// Prefix of the id in `equipment.json` (`primary-ar-23-liberator`).
    pub fn key(self) -> (r: &'static str)
        ensures
            r@ == self.spec_key(),
    {
        match self {
            Category::Primary => "primary",
            Category::Secondary => "secondary",
            Category::Grenade => "grenade",
            Category::Armor => "armor",
            Category::Helmet => "helmet",
            Category::Cape => "cape",
            Category::Booster => "booster",
            Category::Passive => "passives",
        }
    }

    pub open spec fn spec_collection(self) -> Seq<char> {
        match self {
            Category::Primary | Category::Secondary | Category::Grenade => "weapons"@,
            Category::Armor => "armors"@,
            Category::Helmet => "helmets"@,
            Category::Cape => "capes"@,
            Category::Booster => "boosters"@,
            Category::Passive => "passives"@,
        }
    }

    /// The API collection, which is also the folder of its images.
    pub fn collection(self) -> (r: &'static str)
        ensures
            r@ == self.spec_collection(),
    {
        match self {
            Category::Primary | Category::Secondary | Category::Grenade => "weapons",
            Category::Armor => "armors",
            Category::Helmet => "helmets",
            Category::Cape => "capes",
            Category::Booster => "boosters",
            Category::Passive => "passives",
        }
    }
}

/// The slug built character by character: ASCII letters and digits stay,
/// any run of other characters becomes one `-` (none at the start).
pub open spec fn slug_build(cs: Seq<char>) -> Seq<char>
    decreases cs.len(),
{
    if cs.len() == 0 {
        Seq::empty()
    } else {
        let prev = slug_build(cs.drop_last());
        let c = cs.last();
        if text::is_ascii_alnum(c) {
            prev.push(c)
        } else if prev.len() > 0 && prev.last() != '-' {
            prev.push('-')
        } else {
            prev
        }
    }
}

/// Without the `-` at the end.
pub open spec fn strip_dashes(s: Seq<char>) -> Seq<char>
    decreases s.len(),
{
    if s.len() > 0 && s.last() == '-' {
        strip_dashes(s.drop_last())
    } else {
        s
    }
}

/// Id of an item from its name: lowercase without accents, and the rest
/// becomes `-`.
pub open spec fn spec_slug(name: Seq<char>) -> Seq<char> {
    strip_dashes(slug_build(data::normalized(name)))
}

/// The id of an item from its name, as the scrape writes it.
pub fn slug(name: &str) -> (r: String)
    ensures
        r@ == spec_slug(name@),
{
    let n = data::normalize_text(name);
    let cs = text::chars_of(n.as_str());
    let mut out: Vec<char> = Vec::new();
    let mut i: usize = 0;
    assert(cs@.take(0) =~= Seq::<char>::empty());
    while i < cs.len()
        invariant
            i <= cs@.len(),
            out@ == slug_build(cs@.take(i as int)),
        decreases cs.len() - i,
    {
        assert(cs@.take(i + 1).drop_last() =~= cs@.take(i as int));
        assert(cs@.take(i + 1).last() == cs@[i as int]);
        let c = cs[i];
        if text::char_is_ascii_alnum(c) {
            out.push(c);
        } else if out.len() > 0 && out[out.len() - 1] != '-' {
            out.push('-');
        }
        i += 1;
    }
    assert(cs@.take(cs@.len() as int) =~= cs@);
    while out.len() > 0 && out[out.len() - 1] == '-'
        invariant
            strip_dashes(out@) == spec_slug(name@),
        decreases out.len(),
    {
        let ghost before = out@;
        out.pop();
        assert(out@ =~= before.drop_last());
    }
    text::string_of(&out)
}

/// Last position of `p` in `s`.
pub open spec fn last_occurrence(s: Seq<char>, p: Seq<char>) -> Option<int> {
    if exists|at: int| text::occurs_at(s, p, at) {
        Some(choose|at: int| text::occurs_at(s, p, at) && forall|b: int| #[trigger] text::occurs_at(s, p, b) ==> b <= at)
    } else {
        None
    }
}

/// The name without the page disambiguator of the wiki (`Name (Armor)`).
pub open spec fn without_page(t: Seq<char>) -> Seq<char> {
    match last_occurrence(t, " ("@) {
        Some(at) if t.len() > 0 && t.last() == ')' => t.take(at),
        _ => t,
    }
}

/// Key for comparing names: without case, accents, punctuation or the page
/// disambiguator of the wiki.
pub open spec fn spec_name_key(name: Seq<char>) -> Seq<char> {
    data::spec_match_key(without_page(text::trim(name)))
}

pub fn last_occurrence_exec(s: &Vec<char>, p: &Vec<char>) -> (r: Option<usize>)
    ensures
        match r {
            Some(at) => last_occurrence(s@, p@) == Some(at as int) && text::occurs_at(s@, p@, at as int),
            None => last_occurrence(s@, p@) is None,
        },
{
    if p.len() > s.len() {
        assert(!exists|at: int| text::occurs_at(s@, p@, at));
        return None;
    }
    let last: usize = s.len() - p.len();
    let mut n: usize = last;
    loop
        invariant
            p@.len() <= s@.len(),
            last == s@.len() - p@.len(),
            n <= last,
            forall|b: int| n < b ==> !#[trigger] text::occurs_at(s@, p@, b),
        decreases n,
    {
        if text::occurs_at_exec(s, p, n) {
            let ghost k = n as int;
            assert forall|b: int| #[trigger] text::occurs_at(s@, p@, b) implies b <= k by {
                if b > k {
                    assert(!text::occurs_at(s@, p@, b));
                }
            }
            let ghost c = choose|x: int| text::occurs_at(s@, p@, x) && forall|b: int| #[trigger] text::occurs_at(s@, p@, b) ==> b <= x;
            assert(c <= k && k <= c);
            return Some(n);
        }
        if n == 0 {
            assert forall|b: int| !#[trigger] text::occurs_at(s@, p@, b) by {
                if b == 0 {
                }
            }
            return None;
        }
        n -= 1;
    }
}

/// The comparison key of a name.
pub fn name_key(name: &str) -> (r: String)
    ensures
        r@ == spec_name_key(name@),
{
    let v = text::chars_of(name);
    let t = text::trim_chars(&v);
    let pat = text::chars_of(" (");
    let cut = match last_occurrence_exec(&t, &pat) {
        Some(at) => {
            if t.len() > 0 && t[t.len() - 1] == ')' {
                proof {
                    reveal_strlit(" (");
                }
                text::slice_chars(&t, 0, at)
            } else {
                t
            }
        },
        None => t,
    };
    assert(cut@ == without_page(text::trim(name@)));
    let n = data::normalize_chars(&cut);
    let k = data::keep_alnum(&n);
    text::string_of(&k)
}


/// A new item from the API, already in the format of the app. It is also the
/// format of the cache. The sheet fields depend on the category and stay
/// empty in the others: type, damage, capacity and fire rate on weapons;
/// weight, ARM/VEL/STA and passive on armor; warbond on armor, helmet and
/// cape; description on boosters and passives.
#[derive(Debug, Clone, PartialEq, Eq)]
pub struct RemoteItem {
    pub category: Category,
    /// Id on the API. It only serves to find the passive of an armor.
    pub slug: String,
    pub nome: String,
    /// Other names the wiki knows the item by.
    pub aliases: Vec<String>,
    /// Path of the image on the API (`/images/v1/weapons/<slug>.<hash>.webp`).
    pub image: String,
    pub tipo: String,
    pub dano: String,
    pub capacidade: Option<String>,
    pub cadencia: Option<String>,
    pub peso: String,
    pub armor: i32,
    pub speed: i32,
    pub stamina: i32,
    pub passive: String,
    pub warbond: String,
    pub descricao: String,
}

/// Id in the format of `equipment.json`: `<category key>-<slug of the name>`.
pub open spec fn spec_item_id(item: RemoteItem) -> Seq<char> {
    item.category.spec_key() + "-"@ + spec_slug(item.nome@)
}

/// Position of the last `/`.
pub open spec fn last_slash(s: Seq<char>) -> Option<int>
    decreases s.len(),
{
    if s.len() == 0 {
        None
    } else if s.last() == '/' {
        Some(s.len() - 1)
    } else {
        last_slash(s.drop_last())
    }
}

/// What follows the last `/` (all of it when there is none).
pub open spec fn after_last_slash(s: Seq<char>) -> Seq<char> {
    match last_slash(s) {
        Some(i) => s.skip(i + 1),
        None => s,
    }
}

/// Name of the icon file in `remote-icons/equipment/`: the category in
/// front, because a helmet and an armor of the same name have similar files.
pub open spec fn spec_item_icon_file(item: RemoteItem) -> Seq<char> {
    item.category.spec_key() + "-"@ + after_last_slash(item.image@)
}

/// Path of the icon relative to `assets/icons/`.
pub open spec fn spec_item_imagem(item: RemoteItem) -> Seq<char> {
    ICON_PREFIX@ + spec_item_icon_file(item)
}

/// Short enough and without control characters.
pub open spec fn text_ok(t: Seq<char>, max: int) -> bool {
    t.len() <= max && forall|i: int| 0 <= i < t.len() ==> !text::is_control(#[trigger] t[i])
}

pub open spec fn optional_ok(o: Option<String>) -> bool {
    match o {
        Some(t) => text_ok(t@, MAX_TEXT_CHARS as int),
        None => true,
    }
}

pub open spec fn stat_ok(v: i32) -> bool {
    0 <= v <= 1000
}

/// Folder of the images of the category on the API.
pub open spec fn image_prefix(c: Category) -> Seq<char> {
    "/images/v1/"@ + c.spec_collection() + "/"@
}

/// Everything the app reads is in order.
pub open spec fn spec_item_valid(item: RemoteItem) -> bool {
    let prefix = image_prefix(item.category);
    &&& data_sync::spec_valid_slug(item.slug@)
    &&& text::trim(item.nome@).len() != 0
    &&& text_ok(item.nome@, MAX_NAME_CHARS as int)
    &&& spec_slug(item.nome@).len() != 0
    &&& item.aliases@.len() <= 8
    &&& forall|i: int| 0 <= i < item.aliases@.len() ==> text_ok(#[trigger] item.aliases@[i]@, MAX_NAME_CHARS as int)
    &&& text::starts_with(item.image@, prefix)
    &&& item.image@.skip(prefix.len() as int) == after_last_slash(item.image@)
    &&& data_sync::spec_valid_icon_file(after_last_slash(item.image@))
    &&& text_ok(item.tipo@, MAX_TEXT_CHARS as int)
    &&& text_ok(item.dano@, MAX_TEXT_CHARS as int)
    &&& text_ok(item.peso@, MAX_TEXT_CHARS as int)
    &&& text_ok(item.passive@, MAX_TEXT_CHARS as int)
    &&& text_ok(item.warbond@, MAX_TEXT_CHARS as int)
    &&& text_ok(item.descricao@, MAX_TEXT_CHARS as int)
    &&& optional_ok(item.capacidade)
    &&& optional_ok(item.cadencia)
    &&& stat_ok(item.armor)
    &&& stat_ok(item.speed)
    &&& stat_ok(item.stamina)
    &&& (item.category == Category::Armor ==> {
        &&& (item.peso@ == "Light"@ || item.peso@ == "Medium"@ || item.peso@ == "Heavy"@)
        &&& text::trim(item.passive@).len() != 0
    })
}

fn text_ok_exec(t: &str, max: usize) -> (r: bool)
    ensures
        r == text_ok(t@, max as int),
{
    let v = text::chars_of(t);
    if v.len() > max {
        return false;
    }
    let mut i: usize = 0;
    while i < v.len()
        invariant
            i <= v@.len(),
            v@ == t@,
            forall|j: int| 0 <= j < i ==> !text::is_control(#[trigger] v@[j]),
        decreases v.len() - i,
    {
        if text::char_is_control(v[i]) {
            return false;
        }
        i += 1;
    }
    true
}

fn optional_ok_exec(o: &Option<String>) -> (r: bool)
    ensures
        r == optional_ok(*o),
{
    match o {
        Some(t) => text_ok_exec(t.as_str(), MAX_TEXT_CHARS),
        None => true,
    }
}

fn copy_opt(s: &Option<String>) -> (r: Option<String>)
    ensures
        r == *s,
{
    match s {
        Some(x) => Some(x.clone()),
        None => None,
    }
}

fn copy_strings(v: &Vec<String>) -> (r: Vec<String>)
    ensures
        r@.len() == v@.len(),
        forall|i: int| 0 <= i < v@.len() ==> #[trigger] r@[i] == v@[i],
{
    let mut r: Vec<String> = Vec::new();
    let mut i: usize = 0;
    while i < v.len()
        invariant
            i <= v@.len(),
            r@.len() == i,
            forall|j: int| 0 <= j < i ==> #[trigger] r@[j] == v@[j],
        decreases v.len() - i,
    {
        r.push(v[i].clone());
        i += 1;
    }
    r
}

/// The two items agree on every field, the aliases by value.
pub open spec fn same_item(a: RemoteItem, b: RemoteItem) -> bool {
    &&& a.category == b.category
    &&& a.slug == b.slug
    &&& a.nome == b.nome
    &&& a.aliases@.len() == b.aliases@.len()
    &&& forall|i: int| 0 <= i < a.aliases@.len() ==> #[trigger] a.aliases@[i] == b.aliases@[i]
    &&& a.image == b.image
    &&& a.tipo == b.tipo
    &&& a.dano == b.dano
    &&& a.capacidade == b.capacidade
    &&& a.cadencia == b.cadencia
    &&& a.peso == b.peso
    &&& a.armor == b.armor
    &&& a.speed == b.speed
    &&& a.stamina == b.stamina
    &&& a.passive == b.passive
    &&& a.warbond == b.warbond
    &&& a.descricao == b.descricao
}

fn copy_item(it: &RemoteItem) -> (r: RemoteItem)
    ensures
        same_item(r, *it),
{
    RemoteItem {
        category: it.category,
        slug: it.slug.clone(),
        nome: it.nome.clone(),
        aliases: copy_strings(&it.aliases),
        image: it.image.clone(),
        tipo: it.tipo.clone(),
        dano: it.dano.clone(),
        capacidade: copy_opt(&it.capacidade),
        cadencia: copy_opt(&it.cadencia),
        peso: it.peso.clone(),
        armor: it.armor,
        speed: it.speed,
        stamina: it.stamina,
        passive: it.passive.clone(),
        warbond: it.warbond.clone(),
        descricao: it.descricao.clone(),
    }
}

fn join3(a: &str, b: &str, c: &str) -> (r: String)
    ensures
        r@ == a@ + b@ + c@,
{
    let x = text::chars_of(a);
    let y = text::chars_of(b);
    let z = text::chars_of(c);
    let xy = text::concat_chars(&x, &y);
    let all = text::concat_chars(&xy, &z);
    text::string_of(&all)
}

impl RemoteItem {
    /// Id in the format of `equipment.json`: what the scrape writes when the
    /// item enters a release, so a build saved before it still holds after.
    pub fn id(&self) -> (r: String)
        ensures
            r@ == spec_item_id(*self),
    {
        let s = slug(self.nome.as_str());
        join3(self.category.key(), "-", s.as_str())
    }

    /// Name of the file on the API. It already carries a content hash.
    pub fn api_file(&self) -> (r: &str)
        ensures
            r@ == after_last_slash(self.image@),
    {
        let v = text::chars_of(self.image.as_str());
        let mut n: usize = v.len();
        assert(v@.take(n as int) =~= v@);
        while n > 0
            invariant
                n <= v@.len(),
                v@ == self.image@,
                last_slash(v@) == last_slash(v@.take(n as int)),
            decreases n,
        {
            assert(v@.take(n as int).last() == v@[n - 1]);
            if v[n - 1] == '/' {
                return self.image.as_str().substring_char(n, v.len());
            }
            assert(v@.take(n as int).drop_last() =~= v@.take(n - 1));
            n -= 1;
        }
        self.image.as_str()
    }

    /// Name of the file in `remote-icons/equipment/`.
    pub fn icon_file(&self) -> (r: String)
        ensures
            r@ == spec_item_icon_file(*self),
    {
        join3(self.category.key(), "-", self.api_file())
    }

    /// Path of the icon relative to `assets/icons/`, as the rest of the app uses.
    pub fn imagem(&self) -> (r: String)
        ensures
            r@ == spec_item_imagem(*self),
    {
        let f = self.icon_file();
        let r = join3(ICON_PREFIX, "", f.as_str());
        proof {
            reveal_strlit("");
            assert(ICON_PREFIX@ + ""@ + f@ =~= ICON_PREFIX@ + f@);
        }
        r
    }

    /// Checks everything the app reads. The cache goes through here again
    /// when it is read.
    pub fn is_valid(&self) -> (r: bool)
        ensures
            r == spec_item_valid(*self),
    {
        if !data_sync::valid_slug(self.slug.as_str()) {
            return false;
        }
        let nome = text::chars_of(self.nome.as_str());
        let trimmed = text::trim_chars(&nome);
        if trimmed.len() == 0 || !text_ok_exec(self.nome.as_str(), MAX_NAME_CHARS) {
            return false;
        }
        let sl = slug(self.nome.as_str());
        if sl.as_str().unicode_len() == 0 || self.aliases.len() > 8 {
            return false;
        }
        let mut i: usize = 0;
        while i < self.aliases.len()
            invariant
                i <= self.aliases@.len(),
                forall|j: int| 0 <= j < i ==> text_ok(#[trigger] self.aliases@[j]@, MAX_NAME_CHARS as int),
            decreases self.aliases.len() - i,
        {
            if !text_ok_exec(self.aliases[i].as_str(), MAX_NAME_CHARS) {
                return false;
            }
            i += 1;
        }
        let prefix = join3("/images/v1/", self.category.collection(), "/");
        let img = text::chars_of(self.image.as_str());
        let pre = text::chars_of(prefix.as_str());
        if !text::chars_starts_with(&img, &pre) {
            return false;
        }
        let file = self.api_file();
        let rest = text::slice_chars(&img, pre.len(), img.len());
        let file_c = text::chars_of(file);
        if !text::chars_eq(&rest, &file_c) || !data_sync::valid_icon_file(file) {
            return false;
        }
        if !text_ok_exec(self.tipo.as_str(), MAX_TEXT_CHARS) || !text_ok_exec(self.dano.as_str(), MAX_TEXT_CHARS)
            || !text_ok_exec(self.peso.as_str(), MAX_TEXT_CHARS) || !text_ok_exec(self.passive.as_str(), MAX_TEXT_CHARS)
            || !text_ok_exec(self.warbond.as_str(), MAX_TEXT_CHARS) || !text_ok_exec(self.descricao.as_str(), MAX_TEXT_CHARS) {
            return false;
        }
        if !optional_ok_exec(&self.capacidade) || !optional_ok_exec(&self.cadencia) {
            return false;
        }
        if self.armor < 0 || self.armor > 1000 || self.speed < 0 || self.speed > 1000 || self.stamina < 0 || self.stamina > 1000 {
            return false;
        }
        match self.category {
            Category::Armor => {
                let light = text::str_eq(self.peso.as_str(), "Light");
                let medium = text::str_eq(self.peso.as_str(), "Medium");
                let heavy = text::str_eq(self.peso.as_str(), "Heavy");
                let passive = text::chars_of(self.passive.as_str());
                let pt = text::trim_chars(&passive);
                (light || medium || heavy) && pt.len() != 0
            },
            _ => true,
        }
    }
}


// --- Inserting into the equipment ---

/// Character vectors as sequences.
pub open spec fn char_views(v: Seq<Vec<char>>) -> Seq<Seq<char>> {
    v.map_values(|c: Vec<char>| c@)
}

/// Where a name goes in a list sorted by name: before the first entry that
/// does not sort before it.
pub open spec fn sorted_pos(names: Seq<Seq<char>>, name: Seq<char>) -> int
    decreases names.len(),
{
    if names.len() == 0 {
        0
    } else if text::lex_lt(names[0], name) {
        1 + sorted_pos(names.drop_first(), name)
    } else {
        0
    }
}

proof fn lemma_sorted_pos(names: Seq<Seq<char>>, name: Seq<char>)
    ensures
        0 <= sorted_pos(names, name) <= names.len(),
    decreases names.len(),
{
    if names.len() > 0 {
        lemma_sorted_pos(names.drop_first(), name);
    }
}

/// `new` is `old` with one entry inserted at `pos`.
pub open spec fn inserted_at<T>(old: Seq<T>, new: Seq<T>, pos: int) -> bool {
    &&& 0 <= pos <= old.len()
    &&& new.len() == old.len() + 1
    &&& new == old.insert(pos, new[pos])
}

pub open spec fn weapon_names(v: Seq<Weapon>) -> Seq<Seq<char>> {
    v.map_values(|w: Weapon| w.nome@)
}

pub open spec fn armor_names(v: Seq<Armor>) -> Seq<Seq<char>> {
    v.map_values(|a: Armor| a.nome@)
}

pub open spec fn cosmetic_names(v: Seq<Cosmetic>) -> Seq<Seq<char>> {
    v.map_values(|c: Cosmetic| c.nome@)
}

pub open spec fn described_names(v: Seq<Described>) -> Seq<Seq<char>> {
    v.map_values(|d: Described| d.nome@)
}

/// The weapon a new item becomes.
pub open spec fn weapon_of(item: RemoteItem, w: Weapon) -> bool {
    &&& w.nome@ == text::trim(item.nome@)
    &&& w.tipo == item.tipo
    &&& w.dano == item.dano
    &&& w.capacidade == item.capacidade
    &&& w.cadencia == item.cadencia
    &&& w.id@ == spec_item_id(item)
    &&& w.imagem@ == spec_item_imagem(item)
}

/// The armor a new item becomes.
pub open spec fn armor_of(item: RemoteItem, a: Armor) -> bool {
    &&& a.nome@ == text::trim(item.nome@)
    &&& a.peso == item.peso
    &&& a.armor == item.armor
    &&& a.speed == item.speed
    &&& a.stamina == item.stamina
    &&& a.passive == item.passive
    &&& a.warbond == item.warbond
    &&& a.id@ == spec_item_id(item)
    &&& a.imagem@ == spec_item_imagem(item)
}

/// The helmet or cape a new item becomes.
pub open spec fn cosmetic_of(item: RemoteItem, c: Cosmetic) -> bool {
    &&& c.nome@ == text::trim(item.nome@)
    &&& c.warbond == item.warbond
    &&& c.id@ == spec_item_id(item)
    &&& c.imagem@ == spec_item_imagem(item)
}

/// The booster or passive a new item becomes.
pub open spec fn described_of(item: RemoteItem, d: Described) -> bool {
    &&& d.nome@ == text::trim(item.nome@)
    &&& d.descricao == item.descricao
    &&& d.id@ == spec_item_id(item)
    &&& d.imagem@ == spec_item_imagem(item)
}

/// `b` is `a` with the item in its place: in the list of its category, at
/// its alphabetical position, every other list unchanged.
#[verifier::opaque]
pub open spec fn spec_inserted(a: Equipment, item: RemoteItem, b: Equipment) -> bool {
    let name = text::trim(item.nome@);
    &&& b.warbond == a.warbond
    &&& b.stratagem_info == a.stratagem_info
    &&& (if item.category == Category::Primary {
        let pos = sorted_pos(weapon_names(a.primary@), name);
        inserted_at(a.primary@, b.primary@, pos) && weapon_of(item, b.primary@[pos])
    } else {
        b.primary == a.primary
    })
    &&& (if item.category == Category::Secondary {
        let pos = sorted_pos(weapon_names(a.secondary@), name);
        inserted_at(a.secondary@, b.secondary@, pos) && weapon_of(item, b.secondary@[pos])
    } else {
        b.secondary == a.secondary
    })
    &&& (if item.category == Category::Grenade {
        let pos = sorted_pos(weapon_names(a.grenade@), name);
        inserted_at(a.grenade@, b.grenade@, pos) && weapon_of(item, b.grenade@[pos])
    } else {
        b.grenade == a.grenade
    })
    &&& (if item.category == Category::Armor {
        let pos = sorted_pos(armor_names(a.armor@), name);
        inserted_at(a.armor@, b.armor@, pos) && armor_of(item, b.armor@[pos])
    } else {
        b.armor == a.armor
    })
    &&& (if item.category == Category::Helmet {
        let pos = sorted_pos(cosmetic_names(a.helmet@), name);
        inserted_at(a.helmet@, b.helmet@, pos) && cosmetic_of(item, b.helmet@[pos])
    } else {
        b.helmet == a.helmet
    })
    &&& (if item.category == Category::Cape {
        let pos = sorted_pos(cosmetic_names(a.cape@), name);
        inserted_at(a.cape@, b.cape@, pos) && cosmetic_of(item, b.cape@[pos])
    } else {
        b.cape == a.cape
    })
    &&& (if item.category == Category::Booster {
        let pos = sorted_pos(described_names(a.booster@), name);
        inserted_at(a.booster@, b.booster@, pos) && described_of(item, b.booster@[pos])
    } else {
        b.booster == a.booster
    })
    &&& (if item.category == Category::Passive {
        let pos = sorted_pos(described_names(a.passives@), name);
        inserted_at(a.passives@, b.passives@, pos) && described_of(item, b.passives@[pos])
    } else {
        b.passives == a.passives
    })
}

fn sorted_index(names: &Vec<Vec<char>>, name: &Vec<char>) -> (r: usize)
    ensures
        r == sorted_pos(char_views(names@), name@),
{
    let ghost ns = char_views(names@);
    let mut i: usize = 0;
    assert(ns.skip(0) =~= ns);
    while i < names.len()
        invariant
            i <= names@.len(),
            ns == char_views(names@),
            sorted_pos(ns, name@) == i + sorted_pos(ns.skip(i as int), name@),
        decreases names.len() - i,
    {
        assert(ns.skip(i as int)[0] == names@[i as int]@);
        if !text::chars_lex_lt(&names[i], name) {
            return i;
        }
        assert(ns.skip(i as int).drop_first() =~= ns.skip(i + 1));
        i += 1;
    }
    assert(ns.skip(i as int) =~= Seq::<Seq<char>>::empty());
    i
}

fn insert_weapon(list: &mut Vec<Weapon>, w: Weapon)
    ensures
        inserted_at(old(list)@, final(list)@, sorted_pos(weapon_names(old(list)@), w.nome@)),
        final(list)@[sorted_pos(weapon_names(old(list)@), w.nome@)] == w,
{
    let mut names: Vec<Vec<char>> = Vec::new();
    let mut i: usize = 0;
    while i < list.len()
        invariant
            *list == *old(list),
            i <= list@.len(),
            names@.len() == i,
            char_views(names@) == weapon_names(list@).take(i as int),
        decreases list.len() - i,
    {
        let ghost before = names@;
        let c = text::chars_of(list[i].nome.as_str());
        names.push(c);
        assert forall|k: int| 0 <= k < i + 1 implies #[trigger] char_views(names@)[k] == weapon_names(list@).take(i + 1)[k] by {
            if k < i {
                assert(char_views(before)[k] == weapon_names(list@).take(i as int)[k]);
            }
        }
        assert(char_views(names@) =~= weapon_names(list@).take(i + 1));
        i += 1;
    }
    assert(weapon_names(list@).take(list@.len() as int) =~= weapon_names(list@));
    let name = text::chars_of(w.nome.as_str());
    let at = sorted_index(&names, &name);
    proof {
        lemma_sorted_pos(weapon_names(list@), w.nome@);
    }
    list.insert(at, w);
}

fn insert_armor(list: &mut Vec<Armor>, a: Armor)
    ensures
        inserted_at(old(list)@, final(list)@, sorted_pos(armor_names(old(list)@), a.nome@)),
        final(list)@[sorted_pos(armor_names(old(list)@), a.nome@)] == a,
{
    let mut names: Vec<Vec<char>> = Vec::new();
    let mut i: usize = 0;
    while i < list.len()
        invariant
            *list == *old(list),
            i <= list@.len(),
            names@.len() == i,
            char_views(names@) == armor_names(list@).take(i as int),
        decreases list.len() - i,
    {
        let ghost before = names@;
        let c = text::chars_of(list[i].nome.as_str());
        names.push(c);
        assert forall|k: int| 0 <= k < i + 1 implies #[trigger] char_views(names@)[k] == armor_names(list@).take(i + 1)[k] by {
            if k < i {
                assert(char_views(before)[k] == armor_names(list@).take(i as int)[k]);
            }
        }
        assert(char_views(names@) =~= armor_names(list@).take(i + 1));
        i += 1;
    }
    assert(armor_names(list@).take(list@.len() as int) =~= armor_names(list@));
    let name = text::chars_of(a.nome.as_str());
    let at = sorted_index(&names, &name);
    proof {
        lemma_sorted_pos(armor_names(list@), a.nome@);
    }
    list.insert(at, a);
}

fn insert_cosmetic(list: &mut Vec<Cosmetic>, c: Cosmetic)
    ensures
        inserted_at(old(list)@, final(list)@, sorted_pos(cosmetic_names(old(list)@), c.nome@)),
        final(list)@[sorted_pos(cosmetic_names(old(list)@), c.nome@)] == c,
{
    let mut names: Vec<Vec<char>> = Vec::new();
    let mut i: usize = 0;
    while i < list.len()
        invariant
            *list == *old(list),
            i <= list@.len(),
            names@.len() == i,
            char_views(names@) == cosmetic_names(list@).take(i as int),
        decreases list.len() - i,
    {
        let ghost before = names@;
        let c = text::chars_of(list[i].nome.as_str());
        names.push(c);
        assert forall|k: int| 0 <= k < i + 1 implies #[trigger] char_views(names@)[k] == cosmetic_names(list@).take(i + 1)[k] by {
            if k < i {
                assert(char_views(before)[k] == cosmetic_names(list@).take(i as int)[k]);
            }
        }
        assert(char_views(names@) =~= cosmetic_names(list@).take(i + 1));
        i += 1;
    }
    assert(cosmetic_names(list@).take(list@.len() as int) =~= cosmetic_names(list@));
    let name = text::chars_of(c.nome.as_str());
    let at = sorted_index(&names, &name);
    proof {
        lemma_sorted_pos(cosmetic_names(list@), c.nome@);
    }
    list.insert(at, c);
}

fn insert_described(list: &mut Vec<Described>, d: Described)
    ensures
        inserted_at(old(list)@, final(list)@, sorted_pos(described_names(old(list)@), d.nome@)),
        final(list)@[sorted_pos(described_names(old(list)@), d.nome@)] == d,
{
    let mut names: Vec<Vec<char>> = Vec::new();
    let mut i: usize = 0;
    while i < list.len()
        invariant
            *list == *old(list),
            i <= list@.len(),
            names@.len() == i,
            char_views(names@) == described_names(list@).take(i as int),
        decreases list.len() - i,
    {
        let ghost before = names@;
        let c = text::chars_of(list[i].nome.as_str());
        names.push(c);
        assert forall|k: int| 0 <= k < i + 1 implies #[trigger] char_views(names@)[k] == described_names(list@).take(i + 1)[k] by {
            if k < i {
                assert(char_views(before)[k] == described_names(list@).take(i as int)[k]);
            }
        }
        assert(char_views(names@) =~= described_names(list@).take(i + 1));
        i += 1;
    }
    assert(described_names(list@).take(list@.len() as int) =~= described_names(list@));
    let name = text::chars_of(d.nome.as_str());
    let at = sorted_index(&names, &name);
    proof {
        lemma_sorted_pos(described_names(list@), d.nome@);
    }
    list.insert(at, d);
}

impl RemoteItem {
    /// The item in the format it takes in the `Equipment`, inserted in its
    /// alphabetical place (the lists of `equipment.json` are sorted by name).
    pub fn insert_into(&self, equipment: &mut Equipment)
        ensures
            spec_inserted(*old(equipment), *self, *final(equipment)),
    {
        reveal(spec_inserted);
        let id = self.id();
        let nome_c = text::chars_of(self.nome.as_str());
        let nome_t = text::trim_chars(&nome_c);
        let nome = text::string_of(&nome_t);
        let imagem = self.imagem();
        match self.category {
            Category::Primary | Category::Secondary | Category::Grenade => {
                let w = Weapon {
                    nome,
                    tipo: self.tipo.clone(),
                    dano: self.dano.clone(),
                    capacidade: copy_opt(&self.capacidade),
                    cadencia: copy_opt(&self.cadencia),
                    id,
                    imagem,
                };
                match self.category {
                    Category::Primary => insert_weapon(&mut equipment.primary, w),
                    Category::Secondary => insert_weapon(&mut equipment.secondary, w),
                    _ => insert_weapon(&mut equipment.grenade, w),
                }
            },
            Category::Armor => {
                let a = Armor {
                    nome,
                    peso: self.peso.clone(),
                    armor: self.armor,
                    speed: self.speed,
                    stamina: self.stamina,
                    passive: self.passive.clone(),
                    warbond: self.warbond.clone(),
                    id,
                    imagem,
                };
                insert_armor(&mut equipment.armor, a);
            },
            Category::Helmet | Category::Cape => {
                let c = Cosmetic { nome, warbond: self.warbond.clone(), id, imagem };
                match self.category {
                    Category::Helmet => insert_cosmetic(&mut equipment.helmet, c),
                    _ => insert_cosmetic(&mut equipment.cape, c),
                }
            },
            Category::Booster | Category::Passive => {
                let d = Described { nome, descricao: self.descricao.clone(), id, imagem };
                match self.category {
                    Category::Booster => insert_described(&mut equipment.booster, d),
                    _ => insert_described(&mut equipment.passives, d),
                }
            },
        }
    }
}


// --- What is new ---

/// Name and id of each bundled item of the category.
pub open spec fn known_pairs(eq: Equipment, c: Category) -> Seq<(Seq<char>, Seq<char>)> {
    match c {
        Category::Primary => eq.primary@.map_values(|w: Weapon| (w.nome@, w.id@)),
        Category::Secondary => eq.secondary@.map_values(|w: Weapon| (w.nome@, w.id@)),
        Category::Grenade => eq.grenade@.map_values(|w: Weapon| (w.nome@, w.id@)),
        Category::Armor => eq.armor@.map_values(|a: Armor| (a.nome@, a.id@)),
        Category::Helmet => eq.helmet@.map_values(|h: Cosmetic| (h.nome@, h.id@)),
        Category::Cape => eq.cape@.map_values(|h: Cosmetic| (h.nome@, h.id@)),
        Category::Booster => eq.booster@.map_values(|d: Described| (d.nome@, d.id@)),
        Category::Passive => eq.passives@.map_values(|d: Described| (d.nome@, d.id@)),
    }
}

/// The comparison keys of an item: its name and its aliases.
pub open spec fn item_keys(item: RemoteItem) -> Seq<Seq<char>> {
    seq![spec_name_key(item.nome@)] + item.aliases@.map_values(|a: String| spec_name_key(a@))
}

/// The bundled category already has the item: by name, by an alias or by id.
pub open spec fn spec_is_known(known: Seq<(Seq<char>, Seq<char>)>, item: RemoteItem) -> bool {
    exists|k: int| 0 <= k < known.len() && #[trigger] same_entry(known[k], item)
}

/// The bundled entry (name, id) is the item: same id, or the name matches
/// the name or an alias of the item.
pub open spec fn same_entry(entry: (Seq<char>, Seq<char>), item: RemoteItem) -> bool {
    entry.1 == spec_item_id(item) || item_keys(item).contains(spec_name_key(entry.0))
}

/// The items of the API that are new in the category, as indices into the
/// API list, and the ids taken along the way (an id already taken is skipped).
pub open spec fn new_in(api: Seq<RemoteItem>, c: Category, known: Seq<(Seq<char>, Seq<char>)>) -> (Seq<int>, Seq<Seq<char>>)
    decreases api.len(),
{
    if api.len() == 0 {
        (Seq::empty(), known.map_values(|p: (Seq<char>, Seq<char>)| p.1))
    } else {
        let (picks, ids) = new_in(api.drop_last(), c, known);
        let it = api.last();
        if it.category == c && !spec_is_known(known, it) && !ids.contains(spec_item_id(it)) {
            (picks.push(api.len() - 1), ids.push(spec_item_id(it)))
        } else {
            (picks, ids)
        }
    }
}

/// The new items of every category in `cats`, in order; a category with
/// more than [`MAX_NEW_PER_CATEGORY`] new items gives none.
pub open spec fn new_picks(eq: Equipment, api: Seq<RemoteItem>, cats: Seq<Category>) -> Seq<int>
    decreases cats.len(),
{
    if cats.len() == 0 {
        Seq::empty()
    } else {
        let picks = new_in(api, cats.last(), known_pairs(eq, cats.last())).0;
        new_picks(eq, api, cats.drop_last()) + if picks.len() <= MAX_NEW_PER_CATEGORY { picks } else { Seq::empty() }
    }
}

/// The bundled warbond names: those of the armors, the helmets and the capes,
/// in that order, without the empty ones.
pub open spec fn warbond_names(eq: Equipment) -> Seq<Seq<char>> {
    nonempty(eq.armor@.map_values(|a: Armor| a.warbond@) + eq.helmet@.map_values(|h: Cosmetic| h.warbond@)
        + eq.cape@.map_values(|h: Cosmetic| h.warbond@))
}

/// The names that are not empty, in order.
pub open spec fn nonempty(names: Seq<Seq<char>>) -> Seq<Seq<char>>
    decreases names.len(),
{
    if names.len() == 0 {
        Seq::empty()
    } else if names.last().len() > 0 {
        nonempty(names.drop_last()).push(names.last())
    } else {
        nonempty(names.drop_last())
    }
}

/// The last name of the list with the key.
pub open spec fn last_with_key(names: Seq<Seq<char>>, key: Seq<char>) -> Option<Seq<char>>
    decreases names.len(),
{
    if names.len() == 0 {
        None
    } else if spec_name_key(names.last()) == key {
        Some(names.last())
    } else {
        last_with_key(names.drop_last(), key)
    }
}

/// The first new passive of the list with the key.
pub open spec fn first_new_passive(items: Seq<RemoteItem>, key: Seq<char>) -> Option<Seq<char>>
    decreases items.len(),
{
    if items.len() == 0 {
        None
    } else if items[0].category == Category::Passive && spec_name_key(items[0].nome@) == key {
        Some(items[0].nome@)
    } else {
        first_new_passive(items.drop_first(), key)
    }
}

/// The spelling a warbond key takes: the bundled one when the JSON has it.
pub open spec fn fixed_warbond(eq: Equipment, w: Seq<char>) -> Seq<char> {
    match last_with_key(warbond_names(eq), spec_name_key(w)) {
        Some(n) => n,
        None => w,
    }
}

/// The passive name an armor points to: the bundled one, else the first new
/// passive with the same key.
pub open spec fn passive_for(eq: Equipment, pre: Seq<RemoteItem>, p: Seq<char>) -> Option<Seq<char>> {
    match last_with_key(eq.passives@.map_values(|d: Described| d.nome@), spec_name_key(p)) {
        Some(n) => Some(n),
        None => first_new_passive(pre, spec_name_key(p)),
    }
}

/// The new items as they leave: with the bundled spelling of the warbond and
/// of the passive; an armor whose passive the app does not know is dropped.
/// Each entry is the index in `pre`, the warbond and the passive.
pub open spec fn fixed_up(eq: Equipment, pre: Seq<RemoteItem>, n: int) -> Seq<(int, Seq<char>, Seq<char>)>
    decreases n,
{
    if n <= 0 {
        Seq::empty()
    } else {
        let prev = fixed_up(eq, pre, n - 1);
        let it = pre[n - 1];
        let wb = fixed_warbond(eq, it.warbond@);
        if it.category != Category::Armor {
            prev.push((n - 1, wb, it.passive@))
        } else {
            match passive_for(eq, pre, it.passive@) {
                Some(p) => prev.push((n - 1, wb, p)),
                None => prev,
            }
        }
    }
}

/// The two items agree on everything but the warbond and the passive.
pub open spec fn same_item_but_names(a: RemoteItem, b: RemoteItem) -> bool {
    &&& a.category == b.category
    &&& a.slug == b.slug
    &&& a.nome == b.nome
    &&& a.aliases@.len() == b.aliases@.len()
    &&& forall|i: int| 0 <= i < a.aliases@.len() ==> #[trigger] a.aliases@[i] == b.aliases@[i]
    &&& a.image == b.image
    &&& a.tipo == b.tipo
    &&& a.dano == b.dano
    &&& a.capacidade == b.capacidade
    &&& a.cadencia == b.cadencia
    &&& a.peso == b.peso
    &&& a.armor == b.armor
    &&& a.speed == b.speed
    &&& a.stamina == b.stamina
    &&& a.descricao == b.descricao
}

/// `r` is what `fresh_items` gives for the bundled equipment and the API list.
#[verifier::opaque]
pub open spec fn spec_fresh(eq: Equipment, api: Seq<RemoteItem>, r: Seq<RemoteItem>) -> bool {
    let picks = new_picks(eq, api, Category::spec_all());
    let pre = picks.map_values(|j: int| api[j]);
    let fixed = fixed_up(eq, pre, pre.len() as int);
    &&& r.len() == fixed.len()
    &&& forall|m: int| 0 <= m < r.len() ==> {
        &&& same_item_but_names(#[trigger] r[m], pre[fixed[m].0])
        &&& r[m].warbond@ == fixed[m].1
        &&& r[m].passive@ == fixed[m].2
    }
}


/// Pairs of strings as pairs of character sequences.
pub open spec fn pair_views(v: Seq<(String, String)>) -> Seq<(Seq<char>, Seq<char>)> {
    v.map_values(|p: (String, String)| (p.0@, p.1@))
}

fn push_pair(r: &mut Vec<(String, String)>, a: &String, b: &String)
    ensures
        pair_views(final(r)@) == pair_views(old(r)@).push((a@, b@)),
{
    let ghost before = r@;
    r.push((a.clone(), b.clone()));
    assert(pair_views(r@) =~= pair_views(before).push((a@, b@)));
}

fn weapon_pairs(v: &Vec<Weapon>) -> (r: Vec<(String, String)>)
    ensures
        pair_views(r@) == v@.map_values(|w: Weapon| (w.nome@, w.id@)),
{
    let mut r: Vec<(String, String)> = Vec::new();
    let mut i: usize = 0;
    while i < v.len()
        invariant
            i <= v@.len(),
            pair_views(r@) == v@.take(i as int).map_values(|w: Weapon| (w.nome@, w.id@)),
        decreases v.len() - i,
    {
        push_pair(&mut r, &v[i].nome, &v[i].id);
        assert(v@.take(i + 1).map_values(|w: Weapon| (w.nome@, w.id@)) =~= v@.take(i as int).map_values(|w: Weapon| (w.nome@, w.id@)).push((v@[i as int].nome@, v@[i as int].id@)));
        i += 1;
    }
    assert(v@.take(v@.len() as int) =~= v@);
    r
}

fn armor_pairs(v: &Vec<Armor>) -> (r: Vec<(String, String)>)
    ensures
        pair_views(r@) == v@.map_values(|w: Armor| (w.nome@, w.id@)),
{
    let mut r: Vec<(String, String)> = Vec::new();
    let mut i: usize = 0;
    while i < v.len()
        invariant
            i <= v@.len(),
            pair_views(r@) == v@.take(i as int).map_values(|w: Armor| (w.nome@, w.id@)),
        decreases v.len() - i,
    {
        push_pair(&mut r, &v[i].nome, &v[i].id);
        assert(v@.take(i + 1).map_values(|w: Armor| (w.nome@, w.id@)) =~= v@.take(i as int).map_values(|w: Armor| (w.nome@, w.id@)).push((v@[i as int].nome@, v@[i as int].id@)));
        i += 1;
    }
    assert(v@.take(v@.len() as int) =~= v@);
    r
}

fn cosmetic_pairs(v: &Vec<Cosmetic>) -> (r: Vec<(String, String)>)
    ensures
        pair_views(r@) == v@.map_values(|w: Cosmetic| (w.nome@, w.id@)),
{
    let mut r: Vec<(String, String)> = Vec::new();
    let mut i: usize = 0;
    while i < v.len()
        invariant
            i <= v@.len(),
            pair_views(r@) == v@.take(i as int).map_values(|w: Cosmetic| (w.nome@, w.id@)),
        decreases v.len() - i,
    {
        push_pair(&mut r, &v[i].nome, &v[i].id);
        assert(v@.take(i + 1).map_values(|w: Cosmetic| (w.nome@, w.id@)) =~= v@.take(i as int).map_values(|w: Cosmetic| (w.nome@, w.id@)).push((v@[i as int].nome@, v@[i as int].id@)));
        i += 1;
    }
    assert(v@.take(v@.len() as int) =~= v@);
    r
}

fn described_pairs(v: &Vec<Described>) -> (r: Vec<(String, String)>)
    ensures
        pair_views(r@) == v@.map_values(|w: Described| (w.nome@, w.id@)),
{
    let mut r: Vec<(String, String)> = Vec::new();
    let mut i: usize = 0;
    while i < v.len()
        invariant
            i <= v@.len(),
            pair_views(r@) == v@.take(i as int).map_values(|w: Described| (w.nome@, w.id@)),
        decreases v.len() - i,
    {
        push_pair(&mut r, &v[i].nome, &v[i].id);
        assert(v@.take(i + 1).map_values(|w: Described| (w.nome@, w.id@)) =~= v@.take(i as int).map_values(|w: Described| (w.nome@, w.id@)).push((v@[i as int].nome@, v@[i as int].id@)));
        i += 1;
    }
    assert(v@.take(v@.len() as int) =~= v@);
    r
}

impl Category {
    /// Name and id of each bundled item of the category.
    pub fn bundled(self, equipment: &Equipment) -> (r: Vec<(String, String)>)
        ensures
            pair_views(r@) == known_pairs(*equipment, self),
    {
        match self {
            Category::Primary => weapon_pairs(&equipment.primary),
            Category::Secondary => weapon_pairs(&equipment.secondary),
            Category::Grenade => weapon_pairs(&equipment.grenade),
            Category::Armor => armor_pairs(&equipment.armor),
            Category::Helmet => cosmetic_pairs(&equipment.helmet),
            Category::Cape => cosmetic_pairs(&equipment.cape),
            Category::Booster => described_pairs(&equipment.booster),
            Category::Passive => described_pairs(&equipment.passives),
        }
    }
}

fn item_keys_exec(item: &RemoteItem) -> (r: Vec<String>)
    ensures
        text::views(r@) == item_keys(*item),
{
    let mut r: Vec<String> = Vec::new();
    r.push(name_key(item.nome.as_str()));
    let mut i: usize = 0;
    let ghost al = item.aliases@.map_values(|a: String| spec_name_key(a@));
    while i < item.aliases.len()
        invariant
            i <= item.aliases@.len(),
            r@.len() == i + 1,
            al == item.aliases@.map_values(|a: String| spec_name_key(a@)),
            text::views(r@) == seq![spec_name_key(item.nome@)] + al.take(i as int),
        decreases item.aliases.len() - i,
    {
        let ghost before = r@;
        let k = name_key(item.aliases[i].as_str());
        r.push(k);
        assert forall|j: int| 0 <= j < i + 2 implies #[trigger] text::views(r@)[j] == (seq![spec_name_key(item.nome@)] + al.take(i + 1))[j] by {
            if j < i + 1 {
                assert(text::views(before)[j] == (seq![spec_name_key(item.nome@)] + al.take(i as int))[j]);
            }
        }
        assert(text::views(r@) =~= seq![spec_name_key(item.nome@)] + al.take(i + 1));
        i += 1;
    }
    assert(al.take(item.aliases@.len() as int) =~= al);
    r
}

fn strings_contain(v: &Vec<String>, x: &Vec<char>) -> (r: bool)
    ensures
        r == text::views(v@).contains(x@),
{
    let mut i: usize = 0;
    while i < v.len()
        invariant
            i <= v@.len(),
            forall|j: int| 0 <= j < i ==> v@[j]@ != x@,
        decreases v.len() - i,
    {
        let c = text::chars_of(v[i].as_str());
        if text::chars_eq(&c, x) {
            assert(text::views(v@)[i as int] == x@);
            return true;
        }
        i += 1;
    }
    assert(!text::views(v@).contains(x@)) by {
        if text::views(v@).contains(x@) {
            let k = choose|k: int| 0 <= k < text::views(v@).len() && text::views(v@)[k] == x@;
            assert(v@[k]@ == x@);
        }
    }
    false
}

/// The bundled category already has the item: by name, by an alias or by id.
pub fn is_known(known: &Vec<(String, String)>, item: &RemoteItem) -> (r: bool)
    ensures
        r == spec_is_known(pair_views(known@), *item),
{
    let id = item.id();
    let idc = text::chars_of(id.as_str());
    let keys = item_keys_exec(item);
    let ghost kv = pair_views(known@);
    let mut k: usize = 0;
    while k < known.len()
        invariant
            k <= known@.len(),
            kv == pair_views(known@),
            idc@ == spec_item_id(*item),
            text::views(keys@) == item_keys(*item),
            forall|j: int| 0 <= j < k ==> !#[trigger] same_entry(kv[j], *item),
        decreases known.len() - k,
    {
        let other = text::chars_of(known[k].1.as_str());
        let nk = name_key(known[k].0.as_str());
        let nkc = text::chars_of(nk.as_str());
        assert(kv[k as int] == (known@[k as int].0@, known@[k as int].1@));
        if text::chars_eq(&other, &idc) || strings_contain(&keys, &nkc) {
            assert(same_entry(kv[k as int], *item));
            return true;
        }
        k += 1;
    }
    false
}

/// Indices as integers.
pub open spec fn ints(v: Seq<usize>) -> Seq<int> {
    v.map_values(|k: usize| k as int)
}

fn new_in_exec(api: &[RemoteItem], c: Category, known: &Vec<(String, String)>) -> (r: Vec<usize>)
    ensures
        ints(r@) == new_in(api@, c, pair_views(known@)).0,
        forall|m: int| 0 <= m < r@.len() ==> (#[trigger] r@[m]) < api@.len(),
{
    let ghost kv = pair_views(known@);
    let mut ids: Vec<String> = Vec::new();
    let mut i: usize = 0;
    while i < known.len()
        invariant
            i <= known@.len(),
            ids@.len() == i,
            kv == pair_views(known@),
            text::views(ids@) == kv.map_values(|p: (Seq<char>, Seq<char>)| p.1).take(i as int),
        decreases known.len() - i,
    {
        let ghost before = ids@;
        let c2 = known[i].1.clone();
        ids.push(c2);
        assert forall|j: int| 0 <= j < i + 1 implies #[trigger] text::views(ids@)[j] == kv.map_values(|p: (Seq<char>, Seq<char>)| p.1).take(i + 1)[j] by {
            if j < i {
                assert(text::views(before)[j] == kv.map_values(|p: (Seq<char>, Seq<char>)| p.1).take(i as int)[j]);
            }
        }
        assert(text::views(ids@) =~= kv.map_values(|p: (Seq<char>, Seq<char>)| p.1).take(i + 1));
        i += 1;
    }
    assert(kv.map_values(|p: (Seq<char>, Seq<char>)| p.1).take(known@.len() as int) =~= kv.map_values(|p: (Seq<char>, Seq<char>)| p.1));
    let mut picks: Vec<usize> = Vec::new();
    let mut j: usize = 0;
    assert(api@.take(0) =~= Seq::<RemoteItem>::empty());
    while j < api.len()
        invariant
            j <= api@.len(),
            kv == pair_views(known@),
            (ints(picks@), text::views(ids@)) == new_in(api@.take(j as int), c, kv),
            forall|m: int| 0 <= m < picks@.len() ==> (#[trigger] picks@[m]) < j,
        decreases api.len() - j,
    {
        assert(api@.take(j + 1).drop_last() =~= api@.take(j as int));
        assert(api@.take(j + 1).last() == api@[j as int]);
        let it = &api[j];
        if it.category == c && !is_known(known, it) {
            let id = it.id();
            let idc = text::chars_of(id.as_str());
            if !strings_contain(&ids, &idc) {
                let ghost pb = picks@;
                let ghost ib = ids@;
                picks.push(j);
                ids.push(id);
                assert(ints(picks@) =~= ints(pb).push(j as int));
                assert(text::views(ids@) =~= text::views(ib).push(spec_item_id(*it)));
            }
        }
        j += 1;
    }
    assert(api@.take(api@.len() as int) =~= api@);
    picks
}


fn last_with_key_exec(names: &Vec<String>, key: &Vec<char>) -> (r: Option<String>)
    ensures
        match r {
            Some(n) => last_with_key(text::views(names@), key@) == Some(n@),
            None => last_with_key(text::views(names@), key@) is None,
        },
{
    let ghost ns = text::views(names@);
    let mut n: usize = names.len();
    assert(ns.take(n as int) =~= ns);
    while n > 0
        invariant
            n <= names@.len(),
            ns == text::views(names@),
            last_with_key(ns, key@) == last_with_key(ns.take(n as int), key@),
        decreases n,
    {
        assert(ns.take(n as int).last() == names@[n - 1]@);
        let k = name_key(names[n - 1].as_str());
        let kc = text::chars_of(k.as_str());
        if text::chars_eq(&kc, key) {
            return Some(names[n - 1].clone());
        }
        assert(ns.take(n as int).drop_last() =~= ns.take(n - 1));
        n -= 1;
    }
    None
}

fn first_new_passive_exec(api: &[RemoteItem], picks: &Vec<usize>, key: &Vec<char>) -> (r: Option<String>)
    requires
        forall|m: int| 0 <= m < picks@.len() ==> (#[trigger] picks@[m]) < api@.len(),
    ensures
        match r {
            Some(n) => first_new_passive(ints(picks@).map_values(|j: int| api@[j]), key@) == Some(n@),
            None => first_new_passive(ints(picks@).map_values(|j: int| api@[j]), key@) is None,
        },
{
    let ghost pre = ints(picks@).map_values(|j: int| api@[j]);
    let mut m: usize = 0;
    assert(pre.skip(0) =~= pre);
    while m < picks.len()
        invariant
            m <= picks@.len(),
            pre == ints(picks@).map_values(|j: int| api@[j]),
            forall|q: int| 0 <= q < picks@.len() ==> (#[trigger] picks@[q]) < api@.len(),
            first_new_passive(pre, key@) == first_new_passive(pre.skip(m as int), key@),
        decreases picks.len() - m,
    {
        let it = &api[picks[m]];
        assert(pre.skip(m as int)[0] == *it);
        if it.category == Category::Passive {
            let k = name_key(it.nome.as_str());
            let kc = text::chars_of(k.as_str());
            if text::chars_eq(&kc, key) {
                return Some(it.nome.clone());
            }
        }
        assert(pre.skip(m as int).drop_first() =~= pre.skip(m + 1));
        m += 1;
    }
    assert(pre.skip(m as int) =~= Seq::<RemoteItem>::empty());
    None
}

fn warbonds_of(eq: &Equipment) -> (r: Vec<String>)
    ensures
        text::views(r@) == warbond_names(*eq),
{
    let mut all: Vec<String> = Vec::new();
    let mut i: usize = 0;
    while i < eq.armor.len()
        invariant
            i <= eq.armor@.len(),
            text::views(all@) == eq.armor@.map_values(|a: Armor| a.warbond@).take(i as int),
        decreases eq.armor.len() - i,
    {
        text::push_string(&mut all, eq.armor[i].warbond.clone());
        assert(eq.armor@.map_values(|a: Armor| a.warbond@).take(i + 1) =~= eq.armor@.map_values(|a: Armor| a.warbond@).take(i as int).push(eq.armor@[i as int].warbond@));
        i += 1;
    }
    assert(eq.armor@.map_values(|a: Armor| a.warbond@).take(eq.armor@.len() as int) =~= eq.armor@.map_values(|a: Armor| a.warbond@));
    let ghost a_part = text::views(all@);
    let mut j: usize = 0;
    while j < eq.helmet.len()
        invariant
            j <= eq.helmet@.len(),
            text::views(all@) == a_part + eq.helmet@.map_values(|h: Cosmetic| h.warbond@).take(j as int),
        decreases eq.helmet.len() - j,
    {
        text::push_string(&mut all, eq.helmet[j].warbond.clone());
        assert(eq.helmet@.map_values(|h: Cosmetic| h.warbond@).take(j + 1) =~= eq.helmet@.map_values(|h: Cosmetic| h.warbond@).take(j as int).push(eq.helmet@[j as int].warbond@));
        assert(text::views(all@) =~= a_part + eq.helmet@.map_values(|h: Cosmetic| h.warbond@).take(j + 1));
        j += 1;
    }
    assert(eq.helmet@.map_values(|h: Cosmetic| h.warbond@).take(eq.helmet@.len() as int) =~= eq.helmet@.map_values(|h: Cosmetic| h.warbond@));
    let ghost ah_part = text::views(all@);
    let mut k: usize = 0;
    while k < eq.cape.len()
        invariant
            k <= eq.cape@.len(),
            text::views(all@) == ah_part + eq.cape@.map_values(|h: Cosmetic| h.warbond@).take(k as int),
        decreases eq.cape.len() - k,
    {
        text::push_string(&mut all, eq.cape[k].warbond.clone());
        assert(eq.cape@.map_values(|h: Cosmetic| h.warbond@).take(k + 1) =~= eq.cape@.map_values(|h: Cosmetic| h.warbond@).take(k as int).push(eq.cape@[k as int].warbond@));
        assert(text::views(all@) =~= ah_part + eq.cape@.map_values(|h: Cosmetic| h.warbond@).take(k + 1));
        k += 1;
    }
    assert(eq.cape@.map_values(|h: Cosmetic| h.warbond@).take(eq.cape@.len() as int) =~= eq.cape@.map_values(|h: Cosmetic| h.warbond@));
    let ghost whole = text::views(all@);
    let mut r: Vec<String> = Vec::new();
    let mut n: usize = 0;
    assert(whole.take(0) =~= Seq::<Seq<char>>::empty());
    while n < all.len()
        invariant
            n <= all@.len(),
            whole == text::views(all@),
            text::views(r@) == nonempty(whole.take(n as int)),
        decreases all.len() - n,
    {
        assert(whole.take(n + 1).drop_last() =~= whole.take(n as int));
        assert(whole.take(n + 1).last() == all@[n as int]@);
        if all[n].as_str().unicode_len() > 0 {
            let ghost before = r@;
            r.push(all[n].clone());
            assert(text::views(r@) =~= text::views(before).push(all@[n as int]@));
        }
        n += 1;
    }
    assert(whole.take(all@.len() as int) =~= whole);
    r
}

fn passive_names(eq: &Equipment) -> (r: Vec<String>)
    ensures
        text::views(r@) == eq.passives@.map_values(|d: Described| d.nome@),
{
    let mut r: Vec<String> = Vec::new();
    let mut i: usize = 0;
    while i < eq.passives.len()
        invariant
            i <= eq.passives@.len(),
            text::views(r@) == eq.passives@.map_values(|d: Described| d.nome@).take(i as int),
        decreases eq.passives.len() - i,
    {
        text::push_string(&mut r, eq.passives[i].nome.clone());
        assert(eq.passives@.map_values(|d: Described| d.nome@).take(i + 1) =~= eq.passives@.map_values(|d: Described| d.nome@).take(i as int).push(eq.passives@[i as int].nome@));
        i += 1;
    }
    assert(eq.passives@.map_values(|d: Described| d.nome@).take(eq.passives@.len() as int) =~= eq.passives@.map_values(|d: Described| d.nome@));
    r
}

fn fresh_picks(bundled: &Equipment, api: &[RemoteItem]) -> (picks: Vec<usize>)
    ensures
        ints(picks@) == new_picks(*bundled, api@, Category::spec_all()),
        forall|m: int| 0 <= m < picks@.len() ==> (#[trigger] picks@[m]) < api@.len(),
{
    let cats = Category::all();
    let mut picks: Vec<usize> = Vec::new();
    let mut k: usize = 0;
    assert(cats@.take(0) =~= Seq::<Category>::empty());
    while k < cats.len()
        invariant
            k <= cats@.len(),
            cats@ == Category::spec_all(),
            ints(picks@) == new_picks(*bundled, api@, cats@.take(k as int)),
            forall|m: int| 0 <= m < picks@.len() ==> (#[trigger] picks@[m]) < api@.len(),
        decreases cats.len() - k,
    {
        assert(cats@.take(k + 1).drop_last() =~= cats@.take(k as int));
        assert(cats@.take(k + 1).last() == cats@[k as int]);
        let known = cats[k].bundled(bundled);
        let new = new_in_exec(api, cats[k], &known);
        if new.len() <= MAX_NEW_PER_CATEGORY {
            let ghost before = picks@;
            let mut q: usize = 0;
            while q < new.len()
                invariant
                    q <= new@.len(),
                    ints(picks@) == ints(before) + ints(new@).take(q as int),
                    forall|m: int| 0 <= m < new@.len() ==> (#[trigger] new@[m]) < api@.len(),
                    forall|m: int| 0 <= m < picks@.len() ==> (#[trigger] picks@[m]) < api@.len(),
                decreases new.len() - q,
            {
                let ghost pb = picks@;
                picks.push(new[q]);
                assert(ints(picks@) =~= ints(pb).push(new@[q as int] as int));
                assert(ints(new@).take(q + 1) =~= ints(new@).take(q as int).push(new@[q as int] as int));
                q += 1;
            }
            assert(ints(new@).take(new@.len() as int) =~= ints(new@));
        } else {
            assert(ints(picks@) =~= new_picks(*bundled, api@, cats@.take(k as int)) + Seq::<int>::empty());
        }
        k += 1;
    }
    assert(cats@.take(cats@.len() as int) =~= cats@);
    picks
}

proof fn lemma_fresh_from_fixed(eq: Equipment, api: Seq<RemoteItem>, picks: Seq<int>, out: Seq<RemoteItem>)
    requires
        picks == new_picks(eq, api, Category::spec_all()),
        fixed_rel(eq, picks.map_values(|j: int| api[j]), picks.len() as int, out),
    ensures
        spec_fresh(eq, api, out),
{
    reveal(spec_fresh);
}

/// `out` holds the first `n` new items as they leave.
pub open spec fn fixed_rel(eq: Equipment, pre: Seq<RemoteItem>, n: int, out: Seq<RemoteItem>) -> bool {
    &&& out.len() == fixed_up(eq, pre, n).len()
    &&& forall|q: int| 0 <= q < out.len() ==> {
        &&& same_item_but_names(#[trigger] out[q], pre[fixed_up(eq, pre, n)[q].0])
        &&& out[q].warbond@ == fixed_up(eq, pre, n)[q].1
        &&& out[q].passive@ == fixed_up(eq, pre, n)[q].2
    }
}

#[verifier::rlimit(30)]
fn fix_one(bundled: &Equipment, api: &[RemoteItem], picks: &Vec<usize>, wn: &Vec<String>, pn: &Vec<String>, m: usize, out: &mut Vec<RemoteItem>)
    requires
        m < picks@.len(),
        forall|q: int| 0 <= q < picks@.len() ==> (#[trigger] picks@[q]) < api@.len(),
        text::views(wn@) == warbond_names(*bundled),
        text::views(pn@) == bundled.passives@.map_values(|d: Described| d.nome@),
        fixed_rel(*bundled, ints(picks@).map_values(|j: int| api@[j]), m as int, old(out)@),
    ensures
        fixed_rel(*bundled, ints(picks@).map_values(|j: int| api@[j]), m + 1, final(out)@),
{
    let ghost eq = *bundled;
    let ghost pre = ints(picks@).map_values(|j: int| api@[j]);
    let it = &api[picks[m]];
    assert(pre[m as int] == *it);
    let wkey = name_key(it.warbond.as_str());
    let wkc = text::chars_of(wkey.as_str());
    let wb: String = match last_with_key_exec(wn, &wkc) {
        Some(n) => n,
        None => it.warbond.clone(),
    };
    assert(wb@ == fixed_warbond(eq, it.warbond@));
    let ghost prev = fixed_up(eq, pre, m as int);
    if it.category != Category::Armor {
        let mut c = copy_item(it);
        c.warbond = wb;
        let ghost ob = out@;
        out.push(c);
        assert(fixed_up(eq, pre, m + 1) == prev.push((m as int, fixed_warbond(eq, it.warbond@), it.passive@)));
        assert forall|q: int| 0 <= q < out@.len() implies {
            &&& same_item_but_names(#[trigger] out@[q], pre[fixed_up(eq, pre, m + 1)[q].0])
            &&& out@[q].warbond@ == fixed_up(eq, pre, m + 1)[q].1
            &&& out@[q].passive@ == fixed_up(eq, pre, m + 1)[q].2
        } by {
            if q < ob.len() {
                assert(out@[q] == ob[q]);
            }
        }
    } else {
        let pkey = name_key(it.passive.as_str());
        let pkc = text::chars_of(pkey.as_str());
        let found: Option<String> = match last_with_key_exec(pn, &pkc) {
            Some(n) => Some(n),
            None => first_new_passive_exec(api, picks, &pkc),
        };
        match found {
            Some(p) => {
                let ghost pv = p@;
                assert(passive_for(eq, pre, it.passive@) == Some(pv));
                let mut c = copy_item(it);
                c.warbond = wb;
                c.passive = p;
                let ghost ob = out@;
                out.push(c);
                assert(fixed_up(eq, pre, m + 1) == prev.push((m as int, fixed_warbond(eq, it.warbond@), pv)));
                assert forall|q: int| 0 <= q < out@.len() implies {
                    &&& same_item_but_names(#[trigger] out@[q], pre[fixed_up(eq, pre, m + 1)[q].0])
                    &&& out@[q].warbond@ == fixed_up(eq, pre, m + 1)[q].1
                    &&& out@[q].passive@ == fixed_up(eq, pre, m + 1)[q].2
                } by {
                    if q < ob.len() {
                        assert(out@[q] == ob[q]);
                    }
                }
            },
            None => {
                assert(passive_for(eq, pre, it.passive@) is None);
                assert(fixed_up(eq, pre, m + 1) == prev);
            },
        }
    }
}

/// The items the bundled JSON lacks, ready to go in.
///
/// An armor with a passive the app does not know (neither bundled nor new)
/// stays out. A warbond the JSON already has keeps the spelling from there:
/// it is by text equality that the cape matches the armor in set matching.
#[verifier::spinoff_prover]
#[verifier::rlimit(60)]
pub fn fresh_items(bundled: &Equipment, api: &[RemoteItem]) -> (r: Vec<RemoteItem>)
    ensures
        spec_fresh(*bundled, api@, r@),
{
    let picks = fresh_picks(bundled, api);
    let wn = warbonds_of(bundled);
    let pn = passive_names(bundled);
    let mut out: Vec<RemoteItem> = Vec::new();
    let mut m: usize = 0;
    while m < picks.len()
        invariant
            m <= picks@.len(),
            ints(picks@) == new_picks(*bundled, api@, Category::spec_all()),
            forall|q: int| 0 <= q < picks@.len() ==> (#[trigger] picks@[q]) < api@.len(),
            text::views(wn@) == warbond_names(*bundled),
            text::views(pn@) == bundled.passives@.map_values(|d: Described| d.nome@),
            fixed_rel(*bundled, ints(picks@).map_values(|j: int| api@[j]), m as int, out@),
        decreases picks.len() - m,
    {
        fix_one(bundled, api, &picks, &wn, &pn, m, &mut out);
        m += 1;
    }
    proof {
        lemma_fresh_from_fixed(*bundled, api@, ints(picks@), out@);
    }
    out
}


/// `eq1` is `eq0` with the items inserted one after the other.
pub open spec fn merged(eq0: Equipment, items: Seq<RemoteItem>, eq1: Equipment) -> bool
    decreases items.len(),
{
    if items.len() == 0 {
        eq1 == eq0
    } else {
        exists|mid: Equipment| merged(eq0, items.drop_last(), mid) && #[trigger] spec_inserted(mid, items.last(), eq1)
    }
}

/// The bundled JSON with the new items of the last sync. What a release
/// already brought (the item entered `equipment.json`) is skipped.
pub fn merge(equipment: &mut Equipment, remote: &[RemoteItem])
    ensures
        exists|fresh: Seq<RemoteItem>| #[trigger] spec_fresh(*old(equipment), remote@, fresh) && merged(*old(equipment), fresh, *final(equipment)),
{
    let fresh = fresh_items(equipment, remote);
    let ghost eq0 = *equipment;
    let mut i: usize = 0;
    assert(fresh@.take(0) =~= Seq::<RemoteItem>::empty());
    while i < fresh.len()
        invariant
            i <= fresh@.len(),
            spec_fresh(eq0, remote@, fresh@),
            merged(eq0, fresh@.take(i as int), *equipment),
        decreases fresh.len() - i,
    {
        let ghost mid = *equipment;
        fresh[i].insert_into(equipment);
        assert(fresh@.take(i + 1).drop_last() =~= fresh@.take(i as int));
        assert(fresh@.take(i + 1).last() == fresh@[i as int]);
        assert(merged(eq0, fresh@.take(i + 1).drop_last(), mid) && spec_inserted(mid, fresh@.take(i + 1).last(), *equipment));
        i += 1;
    }
    assert(fresh@.take(fresh@.len() as int) =~= fresh@);
}

/// The items of the cache that can still be used: the valid ones, in order.
pub open spec fn valid_items(list: Seq<RemoteItem>) -> Seq<RemoteItem>
    decreases list.len(),
{
    if list.len() == 0 {
        Seq::empty()
    } else if spec_item_valid(list.last()) {
        valid_items(list.drop_last()).push(list.last())
    } else {
        valid_items(list.drop_last())
    }
}

/// The items of the cache, without those that fail the validation (a file
/// that was tampered with).
pub fn cached_items(items: Vec<RemoteItem>) -> (r: Vec<RemoteItem>)
    ensures
        r@ == valid_items(items@),
{
    let ghost all = items@;
    let n: usize = items.len();
    let mut rest = items;
    let mut out: Vec<RemoteItem> = Vec::new();
    let mut i: usize = 0;
    assert(all.take(0) =~= Seq::<RemoteItem>::empty());
    assert(all.skip(0) =~= all);
    while rest.len() > 0
        invariant
            i <= all.len(),
            all.len() == n,
            rest@ == all.skip(i as int),
            out@ == valid_items(all.take(i as int)),
        decreases rest.len(),
    {
        assert(all.take(i + 1).drop_last() =~= all.take(i as int));
        assert(all.take(i + 1).last() == all[i as int]);
        let item = rest.remove(0);
        assert(rest@ =~= all.skip(i + 1));
        if item.is_valid() {
            out.push(item);
        }
        i += 1;
    }
    assert(all.take(all.len() as int) =~= all);
    out
}


} // verus!
