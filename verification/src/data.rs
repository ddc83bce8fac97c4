//! Game data: stratagems, equipment, and the rules shared by the macro slots
//! and the build generator.

use vstd::prelude::*;
use crate::text;

verus! {

/// Direction of one codex step.
#[derive(Debug, Clone, Copy, PartialEq, Eq, Structural, Hash)]
pub enum Dir {
    Up,
    Down,
    Left,
    Right,
}

impl Dir {
    pub open spec fn spec_index(self) -> nat {
        match self {
            Dir::Up => 0,
            Dir::Down => 1,
            Dir::Left => 2,
            Dir::Right => 3,
        }
    }

    /// Index into the scancode tables of `keys`.
    pub fn index(self) -> (i: usize)
        ensures
            i == self.spec_index(),
            i < 4,
    {
        match self {
            Dir::Up => 0,
            Dir::Down => 1,
            Dir::Left => 2,
            Dir::Right => 3,
        }
    }
}


/// A stratagem, as `stratagems.json` lists it.
#[derive(Debug, Clone, PartialEq, Eq)]
pub struct Stratagem {
    pub id: u32,
    /// Data-API identifier (empty for entries that never came from it).
    pub slug: String,
    pub nome: String,
    /// Path relative to `assets/icons/` (e.g. `stratagems/Foo_Icon.webp`).
    pub imagem: String,
    pub tag: Vec<String>,
    pub codex: Vec<Dir>,
    /// Classification that came with the entry, when it came from the data API.
    pub kind_hint: Option<StratKind>,
}

/// The tags of a stratagem, as character sequences.
pub open spec fn tags_of(s: &Stratagem) -> Seq<Seq<char>> {
    s.tag@.map_values(|t: String| t@)
}

impl Stratagem {
    pub open spec fn spec_has_tag(&self, tag: Seq<char>) -> bool {
        tags_of(self).contains(tag)
    }

    pub fn has_tag(&self, tag: &str) -> (r: bool)
        ensures
            r == self.spec_has_tag(tag@),
    {
        let want = text::chars_of(tag);
        let mut i: usize = 0;
        while i < self.tag.len()
            invariant
                i <= self.tag@.len(),
                want@ == tag@,
                forall|k: int| 0 <= k < i ==> self.tag@[k]@ != tag@,
            decreases self.tag.len() - i,
        {
            let have = text::chars_of(self.tag[i].as_str());
            if text::chars_eq(&have, &want) {
                assert(tags_of(self)[i as int] == tag@);
                return true;
            }
            i += 1;
        }
        assert(!tags_of(self).contains(tag@)) by {
            if tags_of(self).contains(tag@) {
                let k = choose|k: int| 0 <= k < tags_of(self).len() && tags_of(self)[k] == tag@;
                assert(self.tag@[k]@ == tag@);
            }
        }
        false
    }

    /// First tag, which is how the UI groups the grid into sections.
    pub fn primary_tag(&self) -> (r: Option<&str>)
        ensures
            self.tag@.len() == 0 ==> r is None,
            self.tag@.len() > 0 ==> (r matches Some(t) && t@ == self.tag@[0]@),
    {
        if self.tag.len() == 0 {
            None
        } else {
            Some(self.tag[0].as_str())
        }
    }
}

/// A fixed support stratagem: takes no slot and its codex never changes.
#[derive(Debug, Clone)]
pub struct SupportStrat {
    pub nome: &'static str,
    /// Path relative to `assets/icons/`.
    pub imagem: &'static str,
    pub codex: Vec<Dir>,
}

/// Codexes of Reinforce, Resupply and Eagle Rearm, in the order the UI shows them.
pub open spec fn support_codexes() -> Seq<Seq<Dir>> {
    seq![
        seq![Dir::Up, Dir::Down, Dir::Right, Dir::Left, Dir::Up],
        seq![Dir::Down, Dir::Down, Dir::Up, Dir::Right],
        seq![Dir::Up, Dir::Up, Dir::Left, Dir::Up, Dir::Right],
    ]
}

/// Names of Reinforce, Resupply and Eagle Rearm, in the order the UI shows them.
pub open spec fn support_names() -> Seq<Seq<char>> {
    seq!["Reinforce"@, "Resupply"@, "Eagle Rearm"@]
}

/// Reinforce, Resupply and Eagle Rearm, in the order the UI shows them.
pub fn support_strats() -> (r: Vec<SupportStrat>)
    ensures
        r@.len() == 3,
        forall|i: int| 0 <= i < 3 ==> (#[trigger] r@[i]).codex@ == support_codexes()[i],
        forall|i: int| 0 <= i < 3 ==> (#[trigger] r@[i]).nome@ == support_names()[i],
{
    let r = vec![
        SupportStrat {
            nome: "Reinforce",
            imagem: "Reinforce_Stratagem_Icon.webp",
            codex: vec![Dir::Up, Dir::Down, Dir::Right, Dir::Left, Dir::Up],
        },
        SupportStrat {
            nome: "Resupply",
            imagem: "Resupply_Stratagem_Icon.webp",
            codex: vec![Dir::Down, Dir::Down, Dir::Up, Dir::Right],
        },
        SupportStrat {
            nome: "Eagle Rearm",
            imagem: "Eagle_Rearm_Stratagem_Icon.webp",
            codex: vec![Dir::Up, Dir::Up, Dir::Left, Dir::Up, Dir::Right],
        },
    ];
    assert(r@[0].codex@ =~= support_codexes()[0]);
    assert(r@[1].codex@ =~= support_codexes()[1]);
    assert(r@[2].codex@ =~= support_codexes()[2]);
    r
}

/// Tags that allow only one equipped stratagem at a time (exosuits and vehicles).
pub open spec fn exclusive_tags() -> Seq<Seq<char>> {
    seq![seq!['M', 'e', 'c', 'h', 'a'], seq!['V', 'e', 'h', 'i', 'c', 'l', 'e']]
}

/// Some slot other than `active_slot` holds a stratagem with `tag`.
pub open spec fn other_slot_has_tag(slots: Seq<Option<Stratagem>>, active_slot: int, tag: Seq<char>) -> bool {
    exists|i: int|
        0 <= i < slots.len() && i != active_slot && (#[trigger] slots[i] matches Some(other)
            && other.spec_has_tag(tag))
}

/// An exclusive stratagem conflicts when another slot already carries the same tag.
pub open spec fn conflict(strat: Stratagem, slots: Seq<Option<Stratagem>>, active_slot: int) -> bool {
    exists|t: int|
        0 <= t < exclusive_tags().len() && strat.spec_has_tag(#[trigger] exclusive_tags()[t])
            && other_slot_has_tag(slots, active_slot, exclusive_tags()[t])
}

/// Slots of references, as values.
pub open spec fn slot_values(slots: Seq<Option<&Stratagem>>) -> Seq<Option<Stratagem>> {
    slots.map_values(|s: Option<&Stratagem>| opt_strat(s))
}

fn exclusive_tag(t: usize) -> (r: &'static str)
    requires
        t < 2,
    ensures
        r@ == exclusive_tags()[t as int],
{
    proof {
        reveal_strlit("Mecha");
        reveal_strlit("Vehicle");
        assert("Mecha"@ =~= seq!['M', 'e', 'c', 'h', 'a']);
        assert("Vehicle"@ =~= seq!['V', 'e', 'h', 'i', 'c', 'l', 'e']);
    }
    if t == 0 {
        "Mecha"
    } else {
        "Vehicle"
    }
}

/// An exclusive stratagem conflicts when another slot already carries the same
/// tag. `slots` may be shorter than `active_slot`: the backup import checks
/// each slot against the earlier ones.
pub fn has_exclusive_conflict(strat: &Stratagem, slots: &[Option<&Stratagem>], active_slot: usize) -> (r: bool)
    ensures
        r == conflict(*strat, slot_values(slots@), active_slot as int),
{
    let mut t: usize = 0;
    while t < 2
        invariant
            t <= 2,
            forall|k: int| 0 <= k < t ==> !(strat.spec_has_tag(#[trigger] exclusive_tags()[k])
                && other_slot_has_tag(slot_values(slots@), active_slot as int, exclusive_tags()[k])),
        decreases 2 - t,
    {
        let tag = exclusive_tag(t);
        if strat.has_tag(tag) {
            let mut i: usize = 0;
            while i < slots.len()
                invariant
                    i <= slots@.len(),
                    t < 2,
                    strat.spec_has_tag(tag@),
                    tag@ == exclusive_tags()[t as int],
                    forall|k: int| 0 <= k < i && k != active_slot ==> !(#[trigger] slot_values(slots@)[k] matches Some(o) && o.spec_has_tag(tag@)),
                decreases slots.len() - i,
            {
                if i != active_slot {
                    match slots[i] {
                        Some(other) => {
                            if other.has_tag(tag) {
                                assert(slot_values(slots@)[i as int] == Some(*other));
                                assert(other_slot_has_tag(slot_values(slots@), active_slot as int, tag@));
                                assert(strat.spec_has_tag(exclusive_tags()[t as int]));
                                return true;
                            }
                        },
                        None => {},
                    }
                }
                i += 1;
            }
        }
        t += 1;
    }
    false
}

/// Unicode lowercase mapping of one character (`char::to_lowercase`).
pub uninterp spec fn lowercase(c: char) -> Seq<char>;

/// `char::to_lowercase`, collected. The full Unicode table is not stated: only
/// that an ASCII character maps to its ASCII lowercase, as the std docs say.
#[verifier::external_body]
fn lower_chars(c: char) -> (r: Vec<char>)
    ensures
        r@ == lowercase(c),
        (c as u32) < 0x80 ==> r@ == seq![text::ascii_lower(c)],
{
    c.to_lowercase().collect()
}

/// Accented letters of Portuguese and of the game names, mapped to their base letter.
pub open spec fn deaccent(c: char) -> char {
    match c {
        'á' | 'à' | 'â' | 'ã' | 'ä' | 'å' | 'ā' | 'ă' | 'ą' => 'a',
        'é' | 'è' | 'ê' | 'ë' | 'ē' | 'ĕ' | 'ė' | 'ę' | 'ě' => 'e',
        'í' | 'ì' | 'î' | 'ï' | 'ĩ' | 'ī' | 'į' => 'i',
        'ó' | 'ò' | 'ô' | 'õ' | 'ö' | 'ø' | 'ō' | 'ŏ' | 'ő' => 'o',
        'ú' | 'ù' | 'û' | 'ü' | 'ũ' | 'ū' | 'ŭ' | 'ů' => 'u',
        'ç' | 'ć' | 'č' => 'c',
        'ñ' | 'ń' | 'ň' => 'n',
        'ý' | 'ÿ' => 'y',
        'š' | 'ś' => 's',
        'ž' | 'ź' | 'ż' => 'z',
        'ł' => 'l',
        'đ' => 'd',
        'ğ' => 'g',
        'ř' => 'r',
        'ť' => 't',
        other => other,
    }
}

pub fn deaccent_char(c: char) -> (r: char)
    ensures
        r == deaccent(c),
{
    match c {
        'á' | 'à' | 'â' | 'ã' | 'ä' | 'å' | 'ā' | 'ă' | 'ą' => 'a',
        'é' | 'è' | 'ê' | 'ë' | 'ē' | 'ĕ' | 'ė' | 'ę' | 'ě' => 'e',
        'í' | 'ì' | 'î' | 'ï' | 'ĩ' | 'ī' | 'į' => 'i',
        'ó' | 'ò' | 'ô' | 'õ' | 'ö' | 'ø' | 'ō' | 'ŏ' | 'ő' => 'o',
        'ú' | 'ù' | 'û' | 'ü' | 'ũ' | 'ū' | 'ŭ' | 'ů' => 'u',
        'ç' | 'ć' | 'č' => 'c',
        'ñ' | 'ń' | 'ň' => 'n',
        'ý' | 'ÿ' => 'y',
        'š' | 'ś' => 's',
        'ž' | 'ź' | 'ż' => 'z',
        'ł' => 'l',
        'đ' => 'd',
        'ğ' => 'g',
        'ř' => 'r',
        'ť' => 't',
        other => other,
    }
}

/// Lowercase without accents: what the search and the name matching compare.
pub open spec fn normalized(s: Seq<char>) -> Seq<char>
    decreases s.len(),
{
    if s.len() == 0 {
        Seq::empty()
    } else {
        normalized(s.drop_last()) + lowercase(s.last()).map_values(|c: char| deaccent(c))
    }
}

/// The accents of Portuguese and of the game names fall away: each accented
/// letter becomes its base letter, only a letter becomes another, and a text
/// whose letters are already lowercase is normalized letter by letter that
/// way, so a search without accents finds accented names.
pub proof fn law_normalizing_drops_the_accents(s: Seq<char>)
    ensures
        deaccent('á') == 'a' && deaccent('à') == 'a' && deaccent('â') == 'a' && deaccent('ã') == 'a' && deaccent('ä') == 'a' && deaccent('å') == 'a' && deaccent('ā') == 'a' && deaccent('ă') == 'a' && deaccent('ą') == 'a',
        deaccent('é') == 'e' && deaccent('è') == 'e' && deaccent('ê') == 'e' && deaccent('ë') == 'e' && deaccent('ē') == 'e' && deaccent('ĕ') == 'e' && deaccent('ė') == 'e' && deaccent('ę') == 'e' && deaccent('ě') == 'e',
        deaccent('í') == 'i' && deaccent('ì') == 'i' && deaccent('î') == 'i' && deaccent('ï') == 'i' && deaccent('ĩ') == 'i' && deaccent('ī') == 'i' && deaccent('į') == 'i',
        deaccent('ó') == 'o' && deaccent('ò') == 'o' && deaccent('ô') == 'o' && deaccent('õ') == 'o' && deaccent('ö') == 'o' && deaccent('ø') == 'o' && deaccent('ō') == 'o' && deaccent('ŏ') == 'o' && deaccent('ő') == 'o',
        deaccent('ú') == 'u' && deaccent('ù') == 'u' && deaccent('û') == 'u' && deaccent('ü') == 'u' && deaccent('ũ') == 'u' && deaccent('ū') == 'u' && deaccent('ŭ') == 'u' && deaccent('ů') == 'u',
        deaccent('ç') == 'c' && deaccent('ć') == 'c' && deaccent('č') == 'c',
        deaccent('ñ') == 'n' && deaccent('ń') == 'n' && deaccent('ň') == 'n',
        deaccent('ý') == 'y' && deaccent('ÿ') == 'y',
        deaccent('š') == 's' && deaccent('ś') == 's',
        deaccent('ž') == 'z' && deaccent('ź') == 'z' && deaccent('ż') == 'z',
        deaccent('ł') == 'l',
        deaccent('đ') == 'd',
        deaccent('ğ') == 'g',
        deaccent('ř') == 'r',
        deaccent('ť') == 't',
        forall|c: char| 'a' <= c <= 'z' ==> deaccent(c) == c,
        forall|c: char| deaccent(c) != c ==> 'a' <= #[trigger] deaccent(c) <= 'z',
        (forall|i: int| 0 <= i < s.len() ==> lowercase(#[trigger] s[i]) == seq![s[i]])
            ==> normalized(s) == s.map_values(|c: char| deaccent(c)),
    decreases s.len(),
{
    if s.len() > 0 {
        let d = s.drop_last();
        law_normalizing_drops_the_accents(d);
        if forall|i: int| 0 <= i < s.len() ==> lowercase(#[trigger] s[i]) == seq![s[i]] {
            assert forall|i: int| 0 <= i < d.len() implies lowercase(#[trigger] d[i]) == seq![d[i]] by {
                assert(d[i] == s[i]);
            }
            assert(lowercase(s[s.len() - 1]) == seq![s.last()]);
            assert(seq![s.last()].map_values(|c: char| deaccent(c)) =~= seq![deaccent(s.last())]);
            assert(normalized(s) =~= s.map_values(|c: char| deaccent(c)));
        }
    }
}

/// `normalize_text` on characters.
pub fn normalize_chars(s: &Vec<char>) -> (r: Vec<char>)
    ensures
        r@ == normalized(s@),
        text::all_ascii(s@) ==> r@ == text::ascii_lower_seq(s@),
{
    let mut r: Vec<char> = Vec::new();
    let mut i: usize = 0;
    assert(s@.take(0) =~= Seq::<char>::empty());
    while i < s.len()
        invariant
            i <= s@.len(),
            r@ == normalized(s@.take(i as int)),
            text::all_ascii(s@) ==> r@ == text::ascii_lower_seq(s@.take(i as int)),
        decreases s.len() - i,
    {
        let low = lower_chars(s[i]);
        proof {
            if text::all_ascii(s@) {
                assert((s@[i as int] as u32) < 0x80);
            }
        }
        let ghost before = r@;
        let mut j: usize = 0;
        while j < low.len()
            invariant
                j <= low@.len(),
                r@ == before + low@.take(j as int).map_values(|c: char| deaccent(c)),
            decreases low.len() - j,
        {
            r.push(deaccent_char(low[j]));
            assert(low@.take(j + 1).map_values(|c: char| deaccent(c)) =~= low@.take(j as int).map_values(|c: char| deaccent(c)).push(deaccent(low@[j as int])));
            j += 1;
        }
        assert(low@.take(low@.len() as int) =~= low@);
        assert(s@.take(i + 1).drop_last() =~= s@.take(i as int));
        proof {
            if text::all_ascii(s@) {
                let c = s@[i as int];
                assert((c as u32) < 0x80);
                assert(low@ == seq![text::ascii_lower(c)]);
                assert(deaccent(text::ascii_lower(c)) == text::ascii_lower(c));
                assert(low@.map_values(|c: char| deaccent(c)) =~= seq![text::ascii_lower(c)]);
                assert(text::ascii_lower_seq(s@.take(i + 1)) =~= text::ascii_lower_seq(s@.take(i as int)).push(text::ascii_lower(c)));
            }
        }
        i += 1;
    }
    assert(s@.take(s@.len() as int) =~= s@);
    r
}

/// Lowercase and without accents: "aguia" finds "Águia", "gatling" finds "A/G-16 Gatling".
pub fn normalize_text(text: &str) -> (r: String)
    ensures
        r@ == normalized(text@),
        text::all_ascii(text@) ==> r@ == text::ascii_lower_seq(text@),
{
    let v = text::chars_of(text);
    let n = normalize_chars(&v);
    text::string_of(&n)
}


/// What the build rules need to know about a stratagem.
#[derive(Debug, Clone, Copy, PartialEq, Eq, Structural)]
pub struct StratKind {
    /// Support weapon (`type: "Support Weapon"` on the wiki).
    pub support: bool,
    /// Takes the backpack slot.
    pub backpack: bool,
    pub sentry: bool,
}

impl StratKind {
    /// Nothing classified: the default of a stratagem the wiki does not know.
    pub fn none() -> (k: StratKind)
        ensures
            k == (StratKind { support: false, backpack: false, sentry: false }),
    {
        StratKind { support: false, backpack: false, sentry: false }
    }
}

/// Index of the last stratagem of `list` with id `id` (what the id index keeps).
pub open spec fn last_index_of(list: Seq<Stratagem>, id: u32) -> Option<int>
    decreases list.len(),
{
    if list.len() == 0 {
        None
    } else if list.last().id == id {
        Some(list.len() - 1)
    } else {
        last_index_of(list.drop_last(), id)
    }
}

pub proof fn lemma_last_index_of(list: Seq<Stratagem>, id: u32)
    ensures
        last_index_of(list, id) matches Some(i) ==> 0 <= i < list.len() && list[i].id == id
            && forall|j: int| i < j < list.len() ==> list[j].id != id,
        last_index_of(list, id) is None ==> forall|j: int| 0 <= j < list.len() ==> list[j].id != id,
    decreases list.len(),
{
    if list.len() > 0 {
        lemma_last_index_of(list.drop_last(), id);
        if list.last().id != id {
            assert forall|j: int| 0 <= j < list.len() - 1 implies list[j].id == list.drop_last()[j].id by {}
        }
    }
}

/// The stratagem list, indexed by id.
#[derive(Debug, Clone)]
pub struct GameData {
    stratagems: Vec<Stratagem>,
    index: std::collections::HashMap<u32, usize>,
}

impl GameData {
    /// The stratagems, in the curated game order.
    pub closed spec fn list(&self) -> Seq<Stratagem> {
        self.stratagems@
    }

    /// The id index points every id at the last stratagem that has it.
    pub closed spec fn wf(&self) -> bool {
        &&& forall|id: u32| #[trigger] self.index@.contains_key(id) <==> last_index_of(self.stratagems@, id) is Some
        &&& forall|id: u32| #[trigger] self.index@.contains_key(id) ==> last_index_of(self.stratagems@, id) == Some(self.index@[id] as int)
    }

    /// The stratagem with id `id`: with repeated ids, the last one.
    pub open spec fn spec_by_id(&self, id: u32) -> Option<Stratagem> {
        match last_index_of(self.list(), id) {
            Some(i) => Some(self.list()[i]),
            None => None,
        }
    }

    /// Builds the data from the list read out of `stratagems.json`.
    pub fn from_list(stratagems: Vec<Stratagem>) -> (d: GameData)
        ensures
            d.wf(),
            d.list() == stratagems@,
    {
        broadcast use vstd::std_specs::hash::group_hash_axioms;
        let mut index: std::collections::HashMap<u32, usize> = std::collections::HashMap::new();
        let mut i: usize = 0;
        assert(stratagems@.take(0) =~= Seq::<Stratagem>::empty());
        while i < stratagems.len()
            invariant
                i <= stratagems@.len(),
                vstd::std_specs::hash::obeys_key_model::<u32>(),
                forall|id: u32| #[trigger] index@.contains_key(id) <==> last_index_of(stratagems@.take(i as int), id) is Some,
                forall|id: u32| #[trigger] index@.contains_key(id) ==> last_index_of(stratagems@.take(i as int), id) == Some(index@[id] as int),
            decreases stratagems.len() - i,
        {
            let id = stratagems[i].id;
            index.insert(id, i);
            assert(stratagems@.take(i + 1).drop_last() =~= stratagems@.take(i as int));
            i += 1;
        }
        assert(stratagems@.take(stratagems@.len() as int) =~= stratagems@);
        GameData { stratagems, index }
    }

    pub fn all(&self) -> (r: &[Stratagem])
        ensures
            r@ == self.list(),
    {
        self.stratagems.as_slice()
    }

    pub fn by_id(&self, id: u32) -> (r: Option<&Stratagem>)
        requires
            self.wf(),
        ensures
            r matches Some(s) ==> self.spec_by_id(id) == Some(*s),
            r is None ==> self.spec_by_id(id) is None,
    {
        broadcast use vstd::std_specs::hash::group_hash_axioms;
        proof {
            lemma_last_index_of(self.stratagems@, id);
        }
        match self.index.get(&id) {
            Some(i) => Some(&self.stratagems[*i]),
            None => None,
        }
    }

    /// Resolves slot ids into stratagems; ids that left the JSON become `None`.
    pub fn resolve(&self, ids: &[Option<u32>]) -> (r: Vec<Option<&Stratagem>>)
        requires
            self.wf(),
        ensures
            r@.len() == ids@.len(),
            forall|i: int| 0 <= i < ids@.len() ==> #[trigger] opt_strat(r@[i]) == resolve_id(self, ids@[i]),
    {
        let mut r: Vec<Option<&Stratagem>> = Vec::new();
        let mut i: usize = 0;
        while i < ids.len()
            invariant
                self.wf(),
                i <= ids@.len(),
                r@.len() == i,
                forall|k: int| 0 <= k < i ==> #[trigger] opt_strat(r@[k]) == resolve_id(self, ids@[k]),
            decreases ids.len() - i,
        {
            let s = match ids[i] {
                Some(id) => self.by_id(id),
                None => None,
            };
            r.push(s);
            i += 1;
        }
        r
    }
}

/// A resolved slot as a value.
pub open spec fn opt_strat(s: Option<&Stratagem>) -> Option<Stratagem> {
    match s {
        Some(s) => Some(*s),
        None => None,
    }
}

/// A slot id resolved against the data.
pub open spec fn resolve_id(data: &GameData, id: Option<u32>) -> Option<Stratagem> {
    match id {
        Some(id) => data.spec_by_id(id),
        None => None,
    }
}


/// Primary, secondary or grenade.
#[derive(Debug, Clone, PartialEq, Eq)]
pub struct Weapon {
    pub nome: String,
    pub tipo: String,
    pub dano: String,
    pub capacidade: Option<String>,
    pub cadencia: Option<String>,
    pub id: String,
    pub imagem: String,
}

#[derive(Debug, Clone, PartialEq, Eq)]
pub struct Armor {
    pub nome: String,
    /// `Light` | `Medium` | `Heavy`.
    pub peso: String,
    pub armor: i32,
    pub speed: i32,
    pub stamina: i32,
    pub passive: String,
    pub warbond: String,
    pub id: String,
    pub imagem: String,
}

/// Helmet or cape: only name and warbond, which is what set matching uses.
#[derive(Debug, Clone, PartialEq, Eq)]
pub struct Cosmetic {
    pub nome: String,
    pub warbond: String,
    pub id: String,
    pub imagem: String,
}

/// Booster or armor passive.
#[derive(Debug, Clone, PartialEq, Eq)]
pub struct Described {
    pub nome: String,
    pub descricao: String,
    pub id: String,
    pub imagem: String,
}

#[derive(Debug, Clone, PartialEq, Eq)]
pub struct Warbond {
    pub nome: String,
    pub tipo: String,
    pub data: String,
    pub custo: String,
    pub id: String,
    pub imagem: String,
}

/// Wiki classification used by the build rules (support weapon, backpack).
#[derive(Debug, Clone, PartialEq, Eq)]
pub struct StratagemInfo {
    pub nome: String,
    pub tipo: Option<String>,
    pub backpack: bool,
}

#[derive(Debug, Clone, PartialEq, Eq)]
pub struct Equipment {
    pub primary: Vec<Weapon>,
    pub secondary: Vec<Weapon>,
    pub grenade: Vec<Weapon>,
    pub armor: Vec<Armor>,
    pub helmet: Vec<Cosmetic>,
    pub cape: Vec<Cosmetic>,
    pub booster: Vec<Described>,
    pub passives: Vec<Described>,
    pub warbond: Vec<Warbond>,
    pub stratagem_info: Vec<StratagemInfo>,
}

pub const EQUIP_SLOT_COUNT: usize = 7;

/// Equipment category of a build, in canonical order. The order matters: it is
/// the order of the saved builds' keys and of the grid on screen.
#[derive(Debug, Clone, Copy, PartialEq, Eq, Structural, Hash)]
pub enum EquipSlot {
    Primary,
    Secondary,
    Grenade,
    Armor,
    Helmet,
    Cape,
    Booster,
}

impl EquipSlot {
    /// All categories, in canonical order.
    pub fn all() -> (r: [EquipSlot; EQUIP_SLOT_COUNT])
        ensures
            forall|i: int| 0 <= i < 7 ==> (#[trigger] r@[i]).spec_index() == i,
            forall|i: int| 0 <= i < 7 ==> r@[i] == slot_at(i),
    {
        [
            EquipSlot::Primary,
            EquipSlot::Secondary,
            EquipSlot::Grenade,
            EquipSlot::Armor,
            EquipSlot::Helmet,
            EquipSlot::Cape,
            EquipSlot::Booster,
        ]
    }

    pub open spec fn spec_index(self) -> nat {
        match self {
            EquipSlot::Primary => 0,
            EquipSlot::Secondary => 1,
            EquipSlot::Grenade => 2,
            EquipSlot::Armor => 3,
            EquipSlot::Helmet => 4,
            EquipSlot::Cape => 5,
            EquipSlot::Booster => 6,
        }
    }

    /// Position in the canonical order: the index of the build and lock vectors.
    pub fn index(self) -> (i: usize)
        ensures
            i == self.spec_index(),
            i < EQUIP_SLOT_COUNT,
    {
        match self {
            EquipSlot::Primary => 0,
            EquipSlot::Secondary => 1,
            EquipSlot::Grenade => 2,
            EquipSlot::Armor => 3,
            EquipSlot::Helmet => 4,
            EquipSlot::Cape => 5,
            EquipSlot::Booster => 6,
        }
    }

    pub open spec fn spec_key(self) -> Seq<char> {
        match self {
            EquipSlot::Primary => seq!['p', 'r', 'i', 'm', 'a', 'r', 'y'],
            EquipSlot::Secondary => seq!['s', 'e', 'c', 'o', 'n', 'd', 'a', 'r', 'y'],
            EquipSlot::Grenade => seq!['g', 'r', 'e', 'n', 'a', 'd', 'e'],
            EquipSlot::Armor => seq!['a', 'r', 'm', 'o', 'r'],
            EquipSlot::Helmet => seq!['h', 'e', 'l', 'm', 'e', 't'],
            EquipSlot::Cape => seq!['c', 'a', 'p', 'e'],
            EquipSlot::Booster => seq!['b', 'o', 'o', 's', 't', 'e', 'r'],
        }
    }

    /// Key used in `equipment.json` and in the `equip` map of saved builds.
    pub fn key(self) -> (r: &'static str)
        ensures
            r@ == self.spec_key(),
    {
        proof {
            reveal_strlit("primary");
            assert("primary"@ =~= seq!['p', 'r', 'i', 'm', 'a', 'r', 'y']);
            reveal_strlit("secondary");
            assert("secondary"@ =~= seq!['s', 'e', 'c', 'o', 'n', 'd', 'a', 'r', 'y']);
            reveal_strlit("grenade");
            assert("grenade"@ =~= seq!['g', 'r', 'e', 'n', 'a', 'd', 'e']);
            reveal_strlit("armor");
            assert("armor"@ =~= seq!['a', 'r', 'm', 'o', 'r']);
            reveal_strlit("helmet");
            assert("helmet"@ =~= seq!['h', 'e', 'l', 'm', 'e', 't']);
            reveal_strlit("cape");
            assert("cape"@ =~= seq!['c', 'a', 'p', 'e']);
            reveal_strlit("booster");
            assert("booster"@ =~= seq!['b', 'o', 'o', 's', 't', 'e', 'r']);
        }
        match self {
            EquipSlot::Primary => "primary",
            EquipSlot::Secondary => "secondary",
            EquipSlot::Grenade => "grenade",
            EquipSlot::Armor => "armor",
            EquipSlot::Helmet => "helmet",
            EquipSlot::Cape => "cape",
            EquipSlot::Booster => "booster",
        }
    }

    pub open spec fn spec_from_key(key: Seq<char>) -> Option<EquipSlot> {
        if exists|s: EquipSlot| s.spec_key() == key {
            Some(choose|s: EquipSlot| s.spec_key() == key)
        } else {
            None
        }
    }

    pub fn from_key(key: &str) -> (r: Option<EquipSlot>)
        ensures
            r == EquipSlot::spec_from_key(key@),
            r matches Some(s) ==> s.spec_key() == key@,
    {
        proof {
            lemma_slot_keys_distinct();
        }
        let all = EquipSlot::all();
        let mut i: usize = 0;
        while i < EQUIP_SLOT_COUNT
            invariant
                i <= 7,
                forall|j: int| 0 <= j < 7 ==> (#[trigger] all@[j]).spec_index() == j,
                forall|j: int| 0 <= j < i ==> (#[trigger] all@[j]).spec_key() != key@,
            decreases 7 - i,
        {
            if text::str_eq(all[i].key(), key) {
                return Some(all[i]);
            }
            i += 1;
        }
        assert forall|s: EquipSlot| s.spec_key() != key@ by {
            assert(all@[s.spec_index() as int] == s);
        }
        None
    }

    pub open spec fn spec_is_weapon(self) -> bool {
        self is Primary || self is Secondary || self is Grenade
    }

    /// Weapons show type and damage; the other categories have another sheet.
    pub fn is_weapon(self) -> (r: bool)
        ensures
            r == self.spec_is_weapon(),
    {
        match self {
            EquipSlot::Primary | EquipSlot::Secondary | EquipSlot::Grenade => true,
            _ => false,
        }
    }
}

/// The category at position `i` of the canonical order.
pub open spec fn slot_at(i: int) -> EquipSlot {
    if i == 0 {
        EquipSlot::Primary
    } else if i == 1 {
        EquipSlot::Secondary
    } else if i == 2 {
        EquipSlot::Grenade
    } else if i == 3 {
        EquipSlot::Armor
    } else if i == 4 {
        EquipSlot::Helmet
    } else if i == 5 {
        EquipSlot::Cape
    } else {
        EquipSlot::Booster
    }
}

/// Two categories share a key only when they are the same category; the index
/// is likewise a bijection onto `0..7`.
pub proof fn lemma_slot_keys_distinct()
    ensures
        forall|a: EquipSlot, b: EquipSlot| a.spec_key() == b.spec_key() ==> a == b,
        forall|a: EquipSlot, b: EquipSlot| a.spec_index() == b.spec_index() ==> a == b,
{
    assert forall|a: EquipSlot, b: EquipSlot| a.spec_key() == b.spec_key() implies a == b by {
        if a != b {
            assert(a.spec_key().len() != b.spec_key().len() || a.spec_key()[0] != b.spec_key()[0]
                || a.spec_key()[1] != b.spec_key()[1]);
        }
    }
}

/// One equipment item as the UI sees it, whatever its category.
#[derive(Debug, Clone, Copy, PartialEq, Eq)]
pub enum Item<'a> {
    Weapon(&'a Weapon),
    Armor(&'a Armor),
    Cosmetic(&'a Cosmetic),
    Described(&'a Described),
}

impl<'a> Item<'a> {
    pub open spec fn spec_id(self) -> Seq<char> {
        match self {
            Item::Weapon(item) => item.id@,
            Item::Armor(item) => item.id@,
            Item::Cosmetic(item) => item.id@,
            Item::Described(item) => item.id@,
        }
    }

    pub open spec fn spec_nome(self) -> Seq<char> {
        match self {
            Item::Weapon(item) => item.nome@,
            Item::Armor(item) => item.nome@,
            Item::Cosmetic(item) => item.nome@,
            Item::Described(item) => item.nome@,
        }
    }

    pub open spec fn spec_imagem(self) -> Seq<char> {
        match self {
            Item::Weapon(item) => item.imagem@,
            Item::Armor(item) => item.imagem@,
            Item::Cosmetic(item) => item.imagem@,
            Item::Described(item) => item.imagem@,
        }
    }

    pub open spec fn spec_warbond(self) -> Option<Seq<char>> {
        match self {
            Item::Armor(item) => Some(item.warbond@),
            Item::Cosmetic(item) => Some(item.warbond@),
            _ => None,
        }
    }

    pub fn id(self) -> (r: &'a str)
        ensures
            r@ == self.spec_id(),
    {
        match self {
            Item::Weapon(item) => item.id.as_str(),
            Item::Armor(item) => item.id.as_str(),
            Item::Cosmetic(item) => item.id.as_str(),
            Item::Described(item) => item.id.as_str(),
        }
    }

    pub fn nome(self) -> (r: &'a str)
        ensures
            r@ == self.spec_nome(),
    {
        match self {
            Item::Weapon(item) => item.nome.as_str(),
            Item::Armor(item) => item.nome.as_str(),
            Item::Cosmetic(item) => item.nome.as_str(),
            Item::Described(item) => item.nome.as_str(),
        }
    }

    /// Path relative to `assets/icons/`.
    pub fn imagem(self) -> (r: &'a str)
        ensures
            r@ == self.spec_imagem(),
    {
        match self {
            Item::Weapon(item) => item.imagem.as_str(),
            Item::Armor(item) => item.imagem.as_str(),
            Item::Cosmetic(item) => item.imagem.as_str(),
            Item::Described(item) => item.imagem.as_str(),
        }
    }

    /// Warbond of the item, where it exists: it is what pairs the cape with the armor.
    pub fn warbond(self) -> (r: Option<&'a str>)
        ensures
            r is None <==> self.spec_warbond() is None,
            r matches Some(w) ==> self.spec_warbond() == Some(w@),
    {
        match self {
            Item::Armor(item) => Some(item.warbond.as_str()),
            Item::Cosmetic(item) => Some(item.warbond.as_str()),
            _ => None,
        }
    }
}

/// Index of the first element of `ids` equal to `id`.
pub open spec fn first_index(ids: Seq<Seq<char>>, id: Seq<char>) -> Option<int>
    decreases ids.len(),
{
    if ids.len() == 0 {
        None
    } else if ids[0] == id {
        Some(0)
    } else {
        match first_index(ids.drop_first(), id) {
            Some(i) => Some(i + 1),
            None => None,
        }
    }
}

pub proof fn lemma_first_index(ids: Seq<Seq<char>>, id: Seq<char>)
    ensures
        first_index(ids, id) matches Some(i) ==> 0 <= i < ids.len() && ids[i] == id
            && forall|j: int| 0 <= j < i ==> ids[j] != id,
        first_index(ids, id) is None ==> forall|j: int| 0 <= j < ids.len() ==> ids[j] != id,
    decreases ids.len(),
{
    if ids.len() > 0 {
        lemma_first_index(ids.drop_first(), id);
        assert forall|j: int| 0 < j < ids.len() implies ids[j] == ids.drop_first()[j - 1] by {}
    }
}

pub proof fn lemma_first_index_unique(ids: Seq<Seq<char>>, id: Seq<char>, i: int)
    requires
        0 <= i < ids.len(),
        ids[i] == id,
        forall|j: int| 0 <= j < i ==> ids[j] != id,
    ensures
        first_index(ids, id) == Some(i),
{
    lemma_first_index(ids, id);
}

impl Equipment {
    pub open spec fn spec_count(&self, slot: EquipSlot) -> nat {
        match slot {
            EquipSlot::Primary => self.primary@.len(),
            EquipSlot::Secondary => self.secondary@.len(),
            EquipSlot::Grenade => self.grenade@.len(),
            EquipSlot::Armor => self.armor@.len(),
            EquipSlot::Helmet => self.helmet@.len(),
            EquipSlot::Cape => self.cape@.len(),
            EquipSlot::Booster => self.booster@.len(),
        }
    }

    pub open spec fn spec_at(&self, slot: EquipSlot, i: int) -> Item<'_> {
        match slot {
            EquipSlot::Primary => Item::Weapon(&self.primary@[i]),
            EquipSlot::Secondary => Item::Weapon(&self.secondary@[i]),
            EquipSlot::Grenade => Item::Weapon(&self.grenade@[i]),
            EquipSlot::Armor => Item::Armor(&self.armor@[i]),
            EquipSlot::Helmet => Item::Cosmetic(&self.helmet@[i]),
            EquipSlot::Cape => Item::Cosmetic(&self.cape@[i]),
            EquipSlot::Booster => Item::Described(&self.booster@[i]),
        }
    }

    /// Ids of a category, in order.
    pub open spec fn ids(&self, slot: EquipSlot) -> Seq<Seq<char>> {
        Seq::new(self.spec_count(slot), |i: int| self.spec_at(slot, i).spec_id())
    }

    /// Position of the item with `id` in its category, if it is there.
    pub open spec fn spec_find(&self, slot: EquipSlot, id: Seq<char>) -> Option<Item<'_>> {
        match first_index(self.ids(slot), id) {
            Some(i) => Some(self.spec_at(slot, i)),
            None => None,
        }
    }

    /// How many items the category has.
    pub fn count(&self, slot: EquipSlot) -> (n: usize)
        ensures
            n == self.spec_count(slot),
    {
        match slot {
            EquipSlot::Primary => self.primary.len(),
            EquipSlot::Secondary => self.secondary.len(),
            EquipSlot::Grenade => self.grenade.len(),
            EquipSlot::Armor => self.armor.len(),
            EquipSlot::Helmet => self.helmet.len(),
            EquipSlot::Cape => self.cape.len(),
            EquipSlot::Booster => self.booster.len(),
        }
    }

    /// Item by position in the list: what the dropdown and the random pick use.
    pub fn at(&self, slot: EquipSlot, index: usize) -> (r: Option<Item<'_>>)
        ensures
            index < self.spec_count(slot) ==> r == Some(self.spec_at(slot, index as int)),
            index >= self.spec_count(slot) ==> r is None,
    {
        match slot {
            EquipSlot::Primary => if index < self.primary.len() { Some(Item::Weapon(&self.primary[index])) } else { None },
            EquipSlot::Secondary => if index < self.secondary.len() { Some(Item::Weapon(&self.secondary[index])) } else { None },
            EquipSlot::Grenade => if index < self.grenade.len() { Some(Item::Weapon(&self.grenade[index])) } else { None },
            EquipSlot::Armor => if index < self.armor.len() { Some(Item::Armor(&self.armor[index])) } else { None },
            EquipSlot::Helmet => if index < self.helmet.len() { Some(Item::Cosmetic(&self.helmet[index])) } else { None },
            EquipSlot::Cape => if index < self.cape.len() { Some(Item::Cosmetic(&self.cape[index])) } else { None },
            EquipSlot::Booster => if index < self.booster.len() { Some(Item::Described(&self.booster[index])) } else { None },
        }
    }

    /// Item by the id a saved build stores; `None` when it left the game.
    pub fn find(&self, slot: EquipSlot, id: &str) -> (r: Option<Item<'_>>)
        ensures
            r == self.spec_find(slot, id@),
    {
        let n = self.count(slot);
        let mut i: usize = 0;
        while i < n
            invariant
                n == self.spec_count(slot),
                i <= n,
                forall|j: int| 0 <= j < i ==> self.ids(slot)[j] != id@,
            decreases n - i,
        {
            let item = self.at(slot, i).unwrap();
            if text::str_eq(item.id(), id) {
                proof {
                    lemma_first_index_unique(self.ids(slot), id@, i as int);
                }
                return Some(item);
            }
            i += 1;
        }
        proof {
            lemma_first_index(self.ids(slot), id@);
            if first_index(self.ids(slot), id@) is Some {
                let k = first_index(self.ids(slot), id@)->0;
                assert(self.ids(slot)[k] == id@);
            }
        }
        None
    }

    pub open spec fn armor_ids(&self) -> Seq<Seq<char>> {
        self.armor@.map_values(|a: Armor| a.id@)
    }

    pub open spec fn passive_names(&self) -> Seq<Seq<char>> {
        self.passives@.map_values(|p: Described| p.nome@)
    }

    /// Armor by id: the full sheet (weight, ARM/SPD/STA, passive) only exists here.
    pub fn armor_by_id(&self, id: &str) -> (r: Option<&Armor>)
        ensures
            r matches Some(a) ==> first_index(self.armor_ids(), id@) matches Some(i) && *a == self.armor@[i],
            r is None ==> first_index(self.armor_ids(), id@) is None,
    {
        let want = text::chars_of(id);
        let mut i: usize = 0;
        while i < self.armor.len()
            invariant
                i <= self.armor@.len(),
                want@ == id@,
                forall|j: int| 0 <= j < i ==> self.armor_ids()[j] != id@,
            decreases self.armor.len() - i,
        {
            let have = text::chars_of(self.armor[i].id.as_str());
            if text::chars_eq(&have, &want) {
                proof {
                    lemma_first_index_unique(self.armor_ids(), id@, i as int);
                }
                return Some(&self.armor[i]);
            }
            i += 1;
        }
        proof {
            lemma_first_index(self.armor_ids(), id@);
        }
        None
    }

    /// Passive by name, which is how the armor refers to it.
    pub fn passive(&self, nome: &str) -> (r: Option<&Described>)
        ensures
            r matches Some(p) ==> first_index(self.passive_names(), nome@) matches Some(i) && *p == self.passives@[i],
            r is None ==> first_index(self.passive_names(), nome@) is None,
    {
        let want = text::chars_of(nome);
        let mut i: usize = 0;
        while i < self.passives.len()
            invariant
                i <= self.passives@.len(),
                want@ == nome@,
                forall|j: int| 0 <= j < i ==> self.passive_names()[j] != nome@,
            decreases self.passives.len() - i,
        {
            let have = text::chars_of(self.passives[i].nome.as_str());
            if text::chars_eq(&have, &want) {
                proof {
                    lemma_first_index_unique(self.passive_names(), nome@, i as int);
                }
                return Some(&self.passives[i]);
            }
            i += 1;
        }
        proof {
            lemma_first_index(self.passive_names(), nome@);
        }
        None
    }
}


/// Where a weapon of the site's statistics lives in our JSON.
#[derive(Debug, Clone, PartialEq, Eq)]
pub struct WeaponRef {
    /// `primary` | `secondary` | `grenade`.
    pub cat: String,
    pub id: String,
}

/// Bridge between the site's slugs and the items of our JSON. Each list is
/// read by key; a key that appears twice answers with its first entry.
#[derive(Debug, Clone, PartialEq, Eq)]
pub struct StatsMap {
    /// Slug → stratagem id.
    pub strategem: Vec<(String, u32)>,
    pub weapons: Vec<(String, WeaponRef)>,
    /// Passive slug → name in `passives`.
    pub armor: Vec<(String, String)>,
}

impl StatsMap {
    pub open spec fn strat_keys(&self) -> Seq<Seq<char>> {
        self.strategem@.map_values(|e: (String, u32)| e.0@)
    }

    pub open spec fn weapon_keys(&self) -> Seq<Seq<char>> {
        self.weapons@.map_values(|e: (String, WeaponRef)| e.0@)
    }

    pub open spec fn armor_keys(&self) -> Seq<Seq<char>> {
        self.armor@.map_values(|e: (String, String)| e.0@)
    }

    pub open spec fn spec_strat_id(&self, slug: Seq<char>) -> Option<u32> {
        match first_index(self.strat_keys(), slug) {
            Some(i) => Some(self.strategem@[i].1),
            None => None,
        }
    }

    pub open spec fn spec_weapon(&self, slug: Seq<char>) -> Option<WeaponRef> {
        match first_index(self.weapon_keys(), slug) {
            Some(i) => Some(self.weapons@[i].1),
            None => None,
        }
    }

    pub open spec fn spec_passive(&self, slug: Seq<char>) -> Option<Seq<char>> {
        match first_index(self.armor_keys(), slug) {
            Some(i) => Some(self.armor@[i].1@),
            None => None,
        }
    }

    /// Stratagem id of a slug.
    pub fn strat_id(&self, slug: &str) -> (r: Option<u32>)
        ensures
            r == self.spec_strat_id(slug@),
    {
        let mut i: usize = 0;
        while i < self.strategem.len()
            invariant
                i <= self.strategem@.len(),
                forall|j: int| 0 <= j < i ==> self.strat_keys()[j] != slug@,
            decreases self.strategem.len() - i,
        {
            if text::str_eq(self.strategem[i].0.as_str(), slug) {
                proof {
                    lemma_first_index_unique(self.strat_keys(), slug@, i as int);
                }
                return Some(self.strategem[i].1);
            }
            i += 1;
        }
        proof {
            lemma_first_index(self.strat_keys(), slug@);
        }
        None
    }

    /// Weapon of a slug.
    pub fn weapon(&self, slug: &str) -> (r: Option<&WeaponRef>)
        ensures
            r matches Some(w) ==> self.spec_weapon(slug@) == Some(*w),
            r is None ==> self.spec_weapon(slug@) is None,
    {
        let mut i: usize = 0;
        while i < self.weapons.len()
            invariant
                i <= self.weapons@.len(),
                forall|j: int| 0 <= j < i ==> self.weapon_keys()[j] != slug@,
            decreases self.weapons.len() - i,
        {
            if text::str_eq(self.weapons[i].0.as_str(), slug) {
                proof {
                    lemma_first_index_unique(self.weapon_keys(), slug@, i as int);
                }
                return Some(&self.weapons[i].1);
            }
            i += 1;
        }
        proof {
            lemma_first_index(self.weapon_keys(), slug@);
        }
        None
    }

    /// Passive name of a slug.
    pub fn passive(&self, slug: &str) -> (r: Option<&String>)
        ensures
            r matches Some(n) ==> self.spec_passive(slug@) == Some(n@),
            r is None ==> self.spec_passive(slug@) is None,
    {
        let mut i: usize = 0;
        while i < self.armor.len()
            invariant
                i <= self.armor@.len(),
                forall|j: int| 0 <= j < i ==> self.armor_keys()[j] != slug@,
            decreases self.armor.len() - i,
        {
            if text::str_eq(self.armor[i].0.as_str(), slug) {
                proof {
                    lemma_first_index_unique(self.armor_keys(), slug@, i as int);
                }
                return Some(&self.armor[i].1);
            }
            i += 1;
        }
        proof {
            lemma_first_index(self.armor_keys(), slug@);
        }
        None
    }
}

/// Below this length a substring would pair unrelated items ("EAT" in "Heat").
pub const MIN_PARTIAL: usize = 6;

/// Name reduced to lowercase letters and digits.
pub open spec fn spec_match_key(name: Seq<char>) -> Seq<char> {
    normalized(name).filter(|c: char| text::is_ascii_alnum(c))
}

pub fn keep_alnum(v: &Vec<char>) -> (r: Vec<char>)
    ensures
        r@ == v@.filter(|c: char| text::is_ascii_alnum(c)),
{
    let mut r: Vec<char> = Vec::new();
    let mut i: usize = 0;
    assert(v@.take(0) =~= Seq::<char>::empty());
    while i < v.len()
        invariant
            i <= v@.len(),
            r@ == v@.take(i as int).filter(|c: char| text::is_ascii_alnum(c)),
        decreases v.len() - i,
    {
        assert(v@.take(i + 1).drop_last() =~= v@.take(i as int));
        reveal_with_fuel(Seq::filter, 1);
        if text::char_is_ascii_alnum(v[i]) {
            r.push(v[i]);
        }
        i += 1;
    }
    assert(v@.take(v@.len() as int) =~= v@);
    r
}

/// Name reduced to lowercase letters and digits.
pub fn match_key(name: &str) -> (r: String)
    ensures
        r@ == spec_match_key(name@),
        text::all_ascii(name@) ==> r@ == text::ascii_lower_seq(name@).filter(|c: char| text::is_ascii_alnum(c)),
{
    let v = text::chars_of(name);
    let n = normalize_chars(&v);
    let k = keep_alnum(&n);
    text::string_of(&k)
}

/// A wiki entry may stand for the stratagem by substring: both keys long
/// enough, and one contains the other.
pub open spec fn partial_match(other: Seq<char>, key: Seq<char>) -> bool {
    &&& other.len() >= MIN_PARTIAL && key.len() >= MIN_PARTIAL
    &&& (text::contains(key, other) || text::contains(other, key))
}

/// Among the first `n` keys, the first one of greatest length that matches
/// partially: the most specific candidate.
pub open spec fn best_partial(keys: Seq<Seq<char>>, key: Seq<char>, n: int) -> Option<int>
    decreases n,
{
    if n <= 0 {
        None
    } else {
        let best = best_partial(keys, key, n - 1);
        if partial_match(keys[n - 1], key) && (best matches Some(b) ==> keys[n - 1].len() > keys[b].len()) {
            Some(n - 1)
        } else {
            best
        }
    }
}

/// Characters before the first space (the technical designation, "AX/ARC-3").
pub open spec fn first_token(name: Seq<char>) -> Seq<char>
    decreases name.len(),
{
    if name.len() == 0 {
        Seq::empty()
    } else if name[0] == ' ' {
        Seq::empty()
    } else {
        seq![name[0]] + first_token(name.drop_first())
    }
}

/// First key that contains `d`.
pub open spec fn first_containing(keys: Seq<Seq<char>>, d: Seq<char>) -> Option<int>
    decreases keys.len(),
{
    if keys.len() == 0 {
        None
    } else if text::contains(keys[0], d) {
        Some(0)
    } else {
        match first_containing(keys.drop_first(), d) {
            Some(i) => Some(i + 1),
            None => None,
        }
    }
}

/// Which wiki entry classifies the stratagem named `nome`: exact key first;
/// then the longest partial match; last, the designation (first token of the
/// name, at least four characters) contained in a key.
pub open spec fn classify_index(nome: Seq<char>, keys: Seq<Seq<char>>) -> Option<int> {
    let key = spec_match_key(nome);
    if first_index(keys, key) is Some {
        first_index(keys, key)
    } else if best_partial(keys, key, keys.len() as int) is Some {
        best_partial(keys, key, keys.len() as int)
    } else {
        let d = spec_match_key(first_token(nome));
        if d.len() >= 4 {
            first_containing(keys, d)
        } else {
            None
        }
    }
}

pub proof fn lemma_best_partial_bound(keys: Seq<Seq<char>>, key: Seq<char>, n: int)
    ensures
        best_partial(keys, key, n) matches Some(b) ==> 0 <= b < n,
    decreases n,
{
    if n > 0 {
        lemma_best_partial_bound(keys, key, n - 1);
    }
}

pub proof fn lemma_first_containing_bound(keys: Seq<Seq<char>>, d: Seq<char>)
    ensures
        first_containing(keys, d) matches Some(b) ==> 0 <= b < keys.len(),
    decreases keys.len(),
{
    if keys.len() > 0 {
        lemma_first_containing_bound(keys.drop_first(), d);
    }
}

/// The chosen entry is always an entry of the list.
pub proof fn lemma_classify_index_bound(nome: Seq<char>, keys: Seq<Seq<char>>)
    ensures
        classify_index(nome, keys) matches Some(i) ==> 0 <= i < keys.len(),
{
    lemma_first_index(keys, spec_match_key(nome));
    lemma_best_partial_bound(keys, spec_match_key(nome), keys.len() as int);
    lemma_first_containing_bound(keys, spec_match_key(first_token(nome)));
}

/// The classification a wiki entry gives.
pub open spec fn kind_of_info(info: StratagemInfo) -> StratKind {
    StratKind {
        support: info.tipo matches Some(t) && t@ == "Support Weapon"@,
        backpack: info.backpack,
        sentry: info.tipo matches Some(t) && t@ == "Sentry"@,
    }
}

pub open spec fn spec_classify(nome: Seq<char>, infos: Seq<(String, &StratagemInfo)>) -> StratKind {
    match classify_index(nome, infos.map_values(|p: (String, &StratagemInfo)| p.0@)) {
        Some(i) => kind_of_info(*infos[i].1),
        None => StratKind { support: false, backpack: false, sentry: false },
    }
}

fn kind_from_info(info: &StratagemInfo) -> (k: StratKind)
    ensures
        k == kind_of_info(*info),
{
    let (support, sentry) = match &info.tipo {
        Some(t) => (text::str_eq(t.as_str(), "Support Weapon"), text::str_eq(t.as_str(), "Sentry")),
        None => (false, false),
    };
    StratKind { support, backpack: info.backpack, sentry }
}

fn token_chars(name: &Vec<char>) -> (r: Vec<char>)
    ensures
        r@ == first_token(name@),
{
    let mut r: Vec<char> = Vec::new();
    let mut i: usize = 0;
    assert(name@.skip(0) =~= name@);
    while i < name.len() && name[i] != ' '
        invariant
            i <= name@.len(),
            first_token(name@) == r@ + first_token(name@.skip(i as int)),
        decreases name.len() - i,
    {
        assert(name@.skip(i as int).drop_first() =~= name@.skip(i + 1));
        assert(r@.push(name@[i as int]) + first_token(name@.skip(i + 1)) =~= r@ + (seq![name@[i as int]] + first_token(name@.skip(i + 1))));
        r.push(name[i]);
        i += 1;
    }
    assert(r@ + first_token(name@.skip(i as int)) =~= r@);
    r
}

/// Classification of a stratagem by its name against the wiki entries (each
/// paired with its [`match_key`]).
pub fn classify(nome: &str, infos: &[(String, &StratagemInfo)]) -> (k: StratKind)
    ensures
        k == spec_classify(nome@, infos@),
{
    let ghost keys = infos@.map_values(|p: (String, &StratagemInfo)| p.0@);
    let key = match_key(nome);
    let keyc = text::chars_of(key.as_str());
    let n = infos.len();
    // exact
    let mut i: usize = 0;
    while i < n
        invariant
            n == infos@.len(),
            keys == infos@.map_values(|p: (String, &StratagemInfo)| p.0@),
            keyc@ == spec_match_key(nome@),
            i <= n,
            forall|j: int| 0 <= j < i ==> keys[j] != keyc@,
        decreases n - i,
    {
        let other = text::chars_of(infos[i].0.as_str());
        if text::chars_eq(&other, &keyc) {
            proof {
                lemma_first_index_unique(keys, keyc@, i as int);
            }
            return kind_from_info(infos[i].1);
        }
        i += 1;
    }
    proof {
        lemma_first_index(keys, keyc@);
        if first_index(keys, keyc@) is Some {
            let k = first_index(keys, keyc@)->0;
            assert(keys[k] == keyc@);
        }
    }
    // partial: the longest candidate wins, the first among equals
    let mut best: Option<usize> = None;
    let mut best_len: usize = 0;
    let mut i: usize = 0;
    while i < n
        invariant
            n == infos@.len(),
            keys == infos@.map_values(|p: (String, &StratagemInfo)| p.0@),
            keyc@ == spec_match_key(nome@),
            i <= n,
            best matches Some(b) ==> best_partial(keys, keyc@, i as int) == Some(b as int) && b < n && best_len == keys[b as int].len(),
            best is None ==> best_partial(keys, keyc@, i as int) is None,
        decreases n - i,
    {
        let other = text::chars_of(infos[i].0.as_str());
        let eligible = other.len() >= MIN_PARTIAL && keyc.len() >= MIN_PARTIAL
            && (text::chars_contains(&keyc, &other) || text::chars_contains(&other, &keyc));
        let better = match best {
            Some(_) => other.len() > best_len,
            None => true,
        };
        if eligible && better {
            best = Some(i);
            best_len = other.len();
        }
        i += 1;
    }
    match best {
        Some(b) => {
            return kind_from_info(infos[b].1);
        },
        None => {},
    }
    // designation
    let namec = text::chars_of(nome);
    let token = token_chars(&namec);
    let tn = normalize_chars(&token);
    let designation = keep_alnum(&tn);
    if designation.len() >= 4 {
        let mut i: usize = 0;
        assert(keys.skip(0) =~= keys);
        while i < n
            invariant
                first_index(keys, spec_match_key(nome@)) is None,
                best_partial(keys, spec_match_key(nome@), n as int) is None,
                designation@.len() >= 4,
                n == infos@.len(),
                keys == infos@.map_values(|p: (String, &StratagemInfo)| p.0@),
                designation@ == spec_match_key(first_token(nome@)),
                i <= n,
                first_containing(keys, designation@) == match first_containing(keys.skip(i as int), designation@) {
                    Some(j) => Some(j + i),
                    None => None,
                },
            decreases n - i,
        {
            let other = text::chars_of(infos[i].0.as_str());
            assert(keys.skip(i as int).drop_first() =~= keys.skip(i + 1));
            if text::chars_contains(&other, &designation) {
                return kind_from_info(infos[i].1);
            }
            i += 1;
        }
    }
    StratKind::none()
}

/// Classification of each stratagem, matched against the wiki's `stratagemInfo`.
#[derive(Debug, Clone)]
pub struct StratMeta {
    kinds: std::collections::HashMap<u32, StratKind>,
}

/// The wiki entries paired with their match keys.
pub open spec fn keyed_infos(equipment: &Equipment) -> Seq<(Seq<char>, StratagemInfo)> {
    equipment.stratagem_info@.map_values(|i: StratagemInfo| (spec_match_key(i.nome@), i))
}

/// Classification of a name against the wiki entries of `equipment`.
pub open spec fn classify_in(nome: Seq<char>, equipment: &Equipment) -> StratKind {
    let infos = keyed_infos(equipment);
    match classify_index(nome, infos.map_values(|p: (Seq<char>, StratagemInfo)| p.0)) {
        Some(i) => kind_of_info(infos[i].1),
        None => StratKind { support: false, backpack: false, sentry: false },
    }
}

/// The classification of a stratagem: the kind the data API gave a new one,
/// otherwise its wiki entry.
pub open spec fn kind_for(s: Stratagem, equipment: &Equipment) -> StratKind {
    match s.kind_hint {
        Some(k) => k,
        None => classify_in(s.nome@, equipment),
    }
}

impl Default for StratMeta {
    /// Nothing classified: every predicate answers false.
    fn default() -> (m: StratMeta)
        ensures
            m.kinds() == Map::<u32, StratKind>::empty(),
    {
        StratMeta { kinds: std::collections::HashMap::new() }
    }
}

impl StratMeta {
    /// The classification recorded for each id.
    pub closed spec fn kinds(&self) -> Map<u32, StratKind> {
        self.kinds@
    }

    /// Classifies every stratagem of `data`: a new one by the kind the data
    /// API gave it, the others by their name against the wiki entries.
    pub fn build(data: &GameData, equipment: &Equipment) -> (m: StratMeta)
        requires
            data.wf(),
        ensures
            forall|id: u32| #[trigger] m.kinds().contains_key(id) <==> data.spec_by_id(id) is Some,
            forall|id: u32| #[trigger] m.kinds().contains_key(id) ==> m.kinds()[id] == kind_for(data.spec_by_id(id)->0, equipment),
    {
        broadcast use vstd::std_specs::hash::group_hash_axioms;
        let mut infos: Vec<(String, &StratagemInfo)> = Vec::new();
        let mut i: usize = 0;
        while i < equipment.stratagem_info.len()
            invariant
                i <= equipment.stratagem_info@.len(),
                infos@.len() == i,
                forall|j: int| 0 <= j < i ==> (#[trigger] infos@[j]).0@ == keyed_infos(equipment)[j].0 && *infos@[j].1 == keyed_infos(equipment)[j].1,
            decreases equipment.stratagem_info.len() - i,
        {
            let info = &equipment.stratagem_info[i];
            infos.push((match_key(info.nome.as_str()), info));
            i += 1;
        }
        assert(infos@.map_values(|p: (String, &StratagemInfo)| p.0@) =~= keyed_infos(equipment).map_values(|p: (Seq<char>, StratagemInfo)| p.0));
        let all = data.all();
        let mut kinds: std::collections::HashMap<u32, StratKind> = std::collections::HashMap::new();
        let mut i: usize = 0;
        assert(data.list().take(0) =~= Seq::<Stratagem>::empty());
        while i < all.len()
            invariant
                all@ == data.list(),
                i <= all@.len(),
                vstd::std_specs::hash::obeys_key_model::<u32>(),
                infos@.len() == keyed_infos(equipment).len(),
                forall|j: int| 0 <= j < infos@.len() ==> (#[trigger] infos@[j]).0@ == keyed_infos(equipment)[j].0 && *infos@[j].1 == keyed_infos(equipment)[j].1,
                infos@.map_values(|p: (String, &StratagemInfo)| p.0@) == keyed_infos(equipment).map_values(|p: (Seq<char>, StratagemInfo)| p.0),
                forall|id: u32| #[trigger] kinds@.contains_key(id) <==> last_index_of(data.list().take(i as int), id) is Some,
                forall|id: u32| #[trigger] kinds@.contains_key(id) ==> kinds@[id] == kind_for(data.list().take(i as int)[last_index_of(data.list().take(i as int), id)->0], equipment),
            decreases all.len() - i,
        {
            let k = match all[i].kind_hint {
                Some(k) => k,
                None => classify(all[i].nome.as_str(), infos.as_slice()),
            };
            kinds.insert(all[i].id, k);
            proof {
                let ks = infos@.map_values(|p: (String, &StratagemInfo)| p.0@);
                let ci = classify_index(all@[i as int].nome@, ks);
                if ci is Some {
                    let j = ci->0;
                    assert(0 <= j < ks.len()) by {
                        lemma_classify_index_bound(all@[i as int].nome@, ks);
                    }
                    assert(*infos@[j].1 == keyed_infos(equipment)[j].1);
                }
                assert(k == kind_for(all@[i as int], equipment));
                assert(last_index_of(data.list().take(i + 1), all@[i as int].id) == Some(i as int));
                assert(data.list().take(i + 1)[i as int] == all@[i as int]);
                assert(data.list().take(i + 1).drop_last() =~= data.list().take(i as int));
                assert forall|id: u32| #[trigger] kinds@.contains_key(id) implies kinds@[id] == kind_for(data.list().take(i + 1)[last_index_of(data.list().take(i + 1), id)->0], equipment) by {
                    if id != all@[i as int].id {
                        lemma_last_index_of(data.list().take(i as int), id);
                        let j = last_index_of(data.list().take(i as int), id)->0;
                        assert(data.list().take(i + 1)[j] == data.list().take(i as int)[j]);
                    }
                }
            }
            i += 1;
        }
        assert(data.list().take(all@.len() as int) =~= data.list());
        StratMeta { kinds }
    }

    pub open spec fn spec_kind(&self, id: u32) -> StratKind {
        if self.kinds().contains_key(id) {
            self.kinds()[id]
        } else {
            StratKind { support: false, backpack: false, sentry: false }
        }
    }

    pub fn kind(&self, id: u32) -> (k: StratKind)
        ensures
            k == self.spec_kind(id),
    {
        broadcast use vstd::std_specs::hash::group_hash_axioms;
        match self.kinds.get(&id) {
            Some(k) => *k,
            None => StratKind::none(),
        }
    }

    pub fn is_support(&self, id: u32) -> (r: bool)
        ensures
            r == self.spec_kind(id).support,
    {
        self.kind(id).support
    }

    pub fn is_backpack(&self, id: u32) -> (r: bool)
        ensures
            r == self.spec_kind(id).backpack,
    {
        self.kind(id).backpack
    }

    pub fn is_sentry(&self, id: u32) -> (r: bool)
        ensures
            r == self.spec_kind(id).sentry,
    {
        self.kind(id).sentry
    }
}

} // verus!
