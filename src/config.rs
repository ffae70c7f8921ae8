//! The action vocabulary, the configuration as written, and its resolution
//! against a key layout into a table keyed by modifier mask and key symbol.
use vstd::prelude::*;

use crate::geometry::Fraction;

pub use crate::parse::{parse_actions, parse_config, ConfigError};

verus! {

/// The modifier index that a layout gives to a name that is no modifier.
pub const MOD_INVALID: u32 = 0xffff_ffff;

/// The key symbol that a layout gives to a name that is no key.
pub const NO_SYMBOL: u32 = 0;

/// What the key codes of a keymap add to those of key events.
pub const KEYCODE_OFFSET: u32 = 8;

/// The keymap's code for the key of a key event (none past `u32::MAX`).
pub fn keymap_keycode(key: u32) -> (r: Option<u32>)
    ensures
        r == (if key + KEYCODE_OFFSET <= u32::MAX {
            Some((key + KEYCODE_OFFSET) as u32)
        } else {
            None::<u32>
        }),
{
    key.checked_add(KEYCODE_OFFSET)
}

/// The pointer buttons that actions can press.
#[derive(Clone, Copy, Debug, PartialEq, Eq, Structural)]
pub enum MouseButton {
    Left,
    Right,
    Middle,
}

impl MouseButton {
    /// The input-event code of the button.
    pub open spec fn code(self) -> u32 {
        match self {
            MouseButton::Left => 0x110,
            MouseButton::Right => 0x111,
            MouseButton::Middle => 0x112,
        }
    }

    pub fn to_code(&self) -> (r: u32)
        ensures
            r == self.code(),
    {
        match self {
            MouseButton::Left => 0x110,
            MouseButton::Right => 0x111,
            MouseButton::Middle => 0x112,
        }
    }
}

/// One command of the navigation vocabulary. A cut or a move without a
/// fraction uses the default one (a half for cuts, one for moves); a click
/// without a button uses the left one.
#[derive(Clone, Copy, Debug, PartialEq, Eq, Structural)]
pub enum KeynavAction {
    CutRight(Option<Fraction>),
    CutLeft(Option<Fraction>),
    CutUp(Option<Fraction>),
    CutDown(Option<Fraction>),
    MoveRight(Option<Fraction>),
    MoveLeft(Option<Fraction>),
    MoveUp(Option<Fraction>),
    MoveDown(Option<Fraction>),
    /// A region of the given size in device pixels around the pointer.
    CursorZoom { width: u32, height: u32 },
    Warp,
    Click(Option<MouseButton>),
    DoubleClick(Option<MouseButton>),
    DragButton(MouseButton),
    End,
}

/// The configuration as written: key combinations (each a list of key and
/// modifier names) with their actions, in order of declaration.
#[derive(Clone, Debug, PartialEq)]
pub struct RawConfig {
    pub mappings: Vec<(Vec<String>, Vec<KeynavAction>)>,
}

/// The names of a key combination.
pub open spec fn names_view(names: Vec<String>) -> Seq<Seq<char>> {
    Seq::new(names@.len(), |j: int| names@[j]@)
}

impl View for RawConfig {
    type V = Seq<(Seq<Seq<char>>, Seq<KeynavAction>)>;

    open spec fn view(&self) -> Self::V {
        Seq::new(
            self.mappings@.len(),
            |i: int| (names_view(self.mappings@[i].0), self.mappings@[i].1@),
        )
    }
}

/// What a key layout says of one name of a key combination: its modifier
/// index (`MOD_INVALID` where it names no modifier) and its key symbol
/// (`NO_SYMBOL` where it names no key).
#[derive(Clone, Copy, Debug, PartialEq, Eq, Structural)]
pub struct TokenLookup {
    pub mod_index: u32,
    pub keysym: u32,
}

/// Why a configuration could not be bound to a layout. `entry` counts the
/// mappings and `token` the names of one mapping, from zero.
#[derive(Clone, Copy, Debug, PartialEq, Eq, Structural)]
pub enum ResolveError {
    /// The name is neither a modifier nor a key.
    UnknownToken { entry: usize, token: usize },
    /// The mapping already has its key.
    ExtraKey { entry: usize, token: usize },
    /// The mapping has modifiers only.
    NoKey { entry: usize },
    /// The modifier's index lies outside a 32-bit mask.
    ModifierOutOfRange { entry: usize, token: usize },
}

/// One resolved mapping: modifier mask, key symbol, actions.
#[derive(Clone, Debug)]
pub struct Binding {
    pub mask: u32,
    pub keysym: u32,
    pub actions: Vec<KeynavAction>,
}

/// The resolved configuration: actions by modifier mask and key symbol.
#[derive(Clone, Debug)]
pub struct Config {
    bindings: Vec<Binding>,
}

/// The table that a list of bindings makes, a later binding of a key taking
/// the place of an earlier one.
pub open spec fn table_of(bs: Seq<((u32, u32), Seq<KeynavAction>)>) -> Map<
    (u32, u32),
    Seq<KeynavAction>,
>
    decreases bs.len(),
{
    if bs.len() == 0 {
        Map::empty()
    } else {
        table_of(bs.drop_last()).insert(bs.last().0, bs.last().1)
    }
}

pub open spec fn binding_view(b: Binding) -> ((u32, u32), Seq<KeynavAction>) {
    ((b.mask, b.keysym), b.actions@)
}

impl Config {
    pub closed spec fn bindings_view(&self) -> Seq<((u32, u32), Seq<KeynavAction>)> {
        bindings_seq(self.bindings@)
    }

    /// The invariant: each combination is bound once.
    pub closed spec fn wf(&self) -> bool {
        keys_unique(self.bindings_view())
    }
}

impl View for Config {
    type V = Map<(u32, u32), Seq<KeynavAction>>;

    open spec fn view(&self) -> Self::V {
        table_of(self.bindings_view())
    }
}

pub open spec fn bindings_seq(bs: Seq<Binding>) -> Seq<((u32, u32), Seq<KeynavAction>)> {
    Seq::new(bs.len(), |i: int| binding_view(bs[i]))
}

/// Whether no two bindings share a combination.
pub open spec fn keys_unique(bs: Seq<((u32, u32), Seq<KeynavAction>)>) -> bool {
    forall|i: int, j: int| 0 <= i < bs.len() && 0 <= j < bs.len() && i != j ==> bs[i].0 != bs[j].0
}

proof fn lemma_table_update(bs: Seq<((u32, u32), Seq<KeynavAction>)>, j: int, v: Seq<KeynavAction>)
    requires
        keys_unique(bs),
        0 <= j < bs.len(),
    ensures
        table_of(bs.update(j, (bs[j].0, v))) == table_of(bs).insert(bs[j].0, v),
    decreases bs.len(),
{
    let u = bs.update(j, (bs[j].0, v));
    assert(u.drop_last() =~= if j == bs.len() - 1 {
        bs.drop_last()
    } else {
        bs.drop_last().update(j, (bs[j].0, v))
    });
    if j == bs.len() - 1 {
        assert(table_of(u) =~= table_of(bs).insert(bs[j].0, v));
    } else {
        assert(keys_unique(bs.drop_last()));
        lemma_table_update(bs.drop_last(), j, v);
        assert(bs.last().0 != bs[j].0);
        assert(table_of(u) =~= table_of(bs).insert(bs[j].0, v));
    }
}

/// Whether the lookups cover each name of each mapping.
pub open spec fn lookups_match(
    raw: Seq<(Seq<Seq<char>>, Seq<KeynavAction>)>,
    lookups: Seq<Seq<TokenLookup>>,
) -> bool {
    &&& lookups.len() == raw.len()
    &&& forall|i: int| 0 <= i < raw.len() ==> #[trigger] lookups[i].len() == raw[i].0.len()
}

/// The fault that one name adds to a combination read so far (modifier mask,
/// key if any), or the combination with that name added.
pub open spec fn scan_step(mask: u32, key: Option<u32>, l: TokenLookup) -> Result<
    (u32, Option<u32>),
    u8,
> {
    if l.mod_index != MOD_INVALID {
        if l.mod_index < 32 {
            Ok(((mask | (1u32 << l.mod_index)) as u32, key))
        } else {
            Err(3)
        }
    } else if l.keysym == NO_SYMBOL {
        Err(0)
    } else if key is Some {
        Err(1)
    } else {
        Ok((mask, Some(l.keysym)))
    }
}

/// The first `n` names of a combination read in order: the mask and the key,
/// or the first fault and where it stands.
pub open spec fn scan_names(ls: Seq<TokenLookup>, n: int) -> Result<(u32, Option<u32>), (u8, int)>
    decreases n,
{
    if n <= 0 {
        Ok((0u32, None))
    } else {
        match scan_names(ls, n - 1) {
            Err(e) => Err(e),
            Ok((mask, key)) => match scan_step(mask, key, ls[n - 1]) {
                Err(k) => Err((k, n - 1)),
                Ok(s) => Ok(s),
            },
        }
    }
}

pub open spec fn fault_error(kind: u8, entry: int, token: int) -> ResolveError {
    if kind == 0 {
        ResolveError::UnknownToken { entry: entry as usize, token: token as usize }
    } else if kind == 1 {
        ResolveError::ExtraKey { entry: entry as usize, token: token as usize }
    } else {
        ResolveError::ModifierOutOfRange { entry: entry as usize, token: token as usize }
    }
}

/// The (mask, key) of mapping `entry`, whose names the layout describes as
/// `ls`.
pub open spec fn resolve_entry(entry: int, ls: Seq<TokenLookup>) -> Result<(u32, u32), ResolveError> {
    match scan_names(ls, ls.len() as int) {
        Err((kind, token)) => Err(fault_error(kind, entry, token)),
        Ok((mask, None)) => Err(ResolveError::NoKey { entry: entry as usize }),
        Ok((mask, Some(key))) => Ok((mask, key)),
    }
}

/// The bindings of the first `n` mappings, or the first error among them.
pub open spec fn resolve_prefix(
    actions: Seq<Seq<KeynavAction>>,
    lookups: Seq<Seq<TokenLookup>>,
    n: int,
) -> Result<Seq<((u32, u32), Seq<KeynavAction>)>, ResolveError>
    decreases n,
{
    if n <= 0 {
        Ok(Seq::empty())
    } else {
        match resolve_prefix(actions, lookups, n - 1) {
            Err(e) => Err(e),
            Ok(bs) => match resolve_entry(n - 1, lookups[n - 1]) {
                Err(e) => Err(e),
                Ok(k) => Ok(bs.push((k, actions[n - 1]))),
            },
        }
    }
}

pub open spec fn actions_of(raw: Seq<(Seq<Seq<char>>, Seq<KeynavAction>)>) -> Seq<Seq<KeynavAction>> {
    Seq::new(raw.len(), |i: int| raw[i].1)
}

/// The table of a configuration bound to a layout, or the first error.
pub open spec fn resolve(
    raw: Seq<(Seq<Seq<char>>, Seq<KeynavAction>)>,
    lookups: Seq<Seq<TokenLookup>>,
) -> Result<Map<(u32, u32), Seq<KeynavAction>>, ResolveError> {
    match resolve_prefix(actions_of(raw), lookups, raw.len() as int) {
        Err(e) => Err(e),
        Ok(bs) => Ok(table_of(bs)),
    }
}

proof fn lemma_scan_fault_stays(ls: Seq<TokenLookup>, k: int, n: int)
    requires
        0 <= k <= n,
        scan_names(ls, k) is Err,
    ensures
        scan_names(ls, n) == scan_names(ls, k),
    decreases n - k,
{
    if n > k {
        lemma_scan_fault_stays(ls, k, n - 1);
    }
}

proof fn lemma_resolve_error_stays(
    actions: Seq<Seq<KeynavAction>>,
    lookups: Seq<Seq<TokenLookup>>,
    k: int,
    n: int,
)
    requires
        0 <= k <= n,
        resolve_prefix(actions, lookups, k) is Err,
    ensures
        resolve_prefix(actions, lookups, n) == resolve_prefix(actions, lookups, k),
    decreases n - k,
{
    if n > k {
        lemma_resolve_error_stays(actions, lookups, k, n - 1);
    }
}

/// A copy of a list of actions.
fn copy_actions(v: &Vec<KeynavAction>) -> (r: Vec<KeynavAction>)
    ensures
        r@ == v@,
{
    let mut r: Vec<KeynavAction> = Vec::new();
    let mut i: usize = 0;
    while i < v.len()
        invariant
            i <= v@.len(),
            r@ == v@.subrange(0, i as int),
        decreases v@.len() - i,
    {
        r.push(v[i]);
        i = i + 1;
    }
    assert(r@ =~= v@);
    r
}

/// Reads the names of one mapping.
fn resolve_names(entry: usize, ls: &Vec<TokenLookup>) -> (r: Result<(u32, u32), ResolveError>)
    ensures
        r == resolve_entry(entry as int, ls@),
{
    let mut mask: u32 = 0;
    let mut key: Option<u32> = None;
    let mut j: usize = 0;
    while j < ls.len()
        invariant
            j <= ls@.len(),
            scan_names(ls@, j as int) == Ok::<_, (u8, int)>((mask, key)),
        decreases ls@.len() - j,
    {
        let l = ls[j];
        if l.mod_index != MOD_INVALID {
            if l.mod_index < 32 {
                mask = mask | (1u32 << l.mod_index);
            } else {
                proof {
                    lemma_scan_fault_stays(ls@, j + 1, ls@.len() as int);
                }
                return Err(ResolveError::ModifierOutOfRange { entry, token: j });
            }
        } else if l.keysym == NO_SYMBOL {
            proof {
                lemma_scan_fault_stays(ls@, j + 1, ls@.len() as int);
            }
            return Err(ResolveError::UnknownToken { entry, token: j });
        } else if key.is_some() {
            proof {
                lemma_scan_fault_stays(ls@, j + 1, ls@.len() as int);
            }
            return Err(ResolveError::ExtraKey { entry, token: j });
        } else {
            key = Some(l.keysym);
        }
        j = j + 1;
    }
    match key {
        None => Err(ResolveError::NoKey { entry }),
        Some(k) => Ok((mask, k)),
    }
}

impl Config {
    /// Binds a configuration to a key layout, which `lookups` describes name
    /// by name. Each name is a modifier (its bit joins the mask) or a key;
    /// a mapping needs exactly one key. Either every mapping binds, or the
    /// first fault is returned. A later mapping of the same combination
    /// takes the place of an earlier one.
    pub fn from_raw_config(raw_config: &RawConfig, lookups: &Vec<Vec<TokenLookup>>) -> (r: Result<
        Config,
        ResolveError,
    >)
        requires
            lookups_match(raw_config@, lookups@.map_values(|l: Vec<TokenLookup>| l@)),
        ensures
            match r {
                Ok(c) => resolve(raw_config@, lookups@.map_values(|l: Vec<TokenLookup>| l@))
                    == Ok::<_, ResolveError>(c@) && c.wf(),
                Err(e) => resolve(raw_config@, lookups@.map_values(|l: Vec<TokenLookup>| l@))
                    == Err::<Map<(u32, u32), Seq<KeynavAction>>, _>(e),
            },
    {
        let ghost ls = lookups@.map_values(|l: Vec<TokenLookup>| l@);
        let ghost acts = actions_of(raw_config@);
        let mut bindings: Vec<Binding> = Vec::new();
        assert(bindings_seq(bindings@) =~= Seq::empty());
        let mut i: usize = 0;
        while i < raw_config.mappings.len()
            invariant
                i <= raw_config.mappings@.len(),
                lookups_match(raw_config@, ls),
                ls == lookups@.map_values(|l: Vec<TokenLookup>| l@),
                acts == actions_of(raw_config@),
                resolve_prefix(acts, ls, i as int) is Ok,
                table_of(resolve_prefix(acts, ls, i as int)->Ok_0) == table_of(bindings_seq(bindings@)),
                keys_unique(bindings_seq(bindings@)),
            decreases raw_config.mappings@.len() - i,
        {
            assert(ls[i as int] == lookups@[i as int]@);
            match resolve_names(i, &lookups[i]) {
                Err(e) => {
                    proof {
                        lemma_resolve_error_stays(acts, ls, i + 1, raw_config@.len() as int);
                    }
                    return Err(e);
                },
                Ok((mask, keysym)) => {
                    let actions = copy_actions(&raw_config.mappings[i].1);
                    let ghost before = bindings_seq(bindings@);
                    let ghost prefix = resolve_prefix(acts, ls, i as int)->Ok_0;
                    assert(resolve_prefix(acts, ls, i + 1)->Ok_0 == prefix.push(((mask, keysym), acts[i as int])));
                    assert(prefix.push(((mask, keysym), acts[i as int])).drop_last() =~= prefix);
                    assert(table_of(prefix.push(((mask, keysym), acts[i as int]))) == table_of(prefix).insert(
                        (mask, keysym),
                        acts[i as int],
                    ));
                    let mut j: usize = 0;
                    while j < bindings.len() && !(bindings[j].mask == mask && bindings[j].keysym == keysym)
                        invariant
                            j <= bindings@.len(),
                            before == bindings_seq(bindings@),
                            forall|k: int| 0 <= k < j ==> #[trigger] before[k].0 != (mask, keysym),
                        decreases bindings@.len() - j,
                    {
                        j = j + 1;
                    }
                    if j < bindings.len() {
                        bindings.set(j, Binding { mask, keysym, actions });
                        proof {
                            lemma_table_update(before, j as int, acts[i as int]);
                            assert(bindings_seq(bindings@) =~= before.update(
                                j as int,
                                ((mask, keysym), acts[i as int]),
                            ));
                        }
                    } else {
                        bindings.push(Binding { mask, keysym, actions });
                        assert(bindings_seq(bindings@) =~= before.push(((mask, keysym), acts[i as int])));
                        assert(before.push(((mask, keysym), acts[i as int])).drop_last() =~= before);
                    }
                },
            }
            i = i + 1;
        }
        let c = Config { bindings };
        assert(c.bindings_view() =~= bindings_seq(bindings@));
        Ok(c)
    }
}

proof fn lemma_table_unchanged_after(bs: Seq<((u32, u32), Seq<KeynavAction>)>, key: (u32, u32), i: int)
    requires
        0 <= i <= bs.len(),
        forall|k: int| i <= k < bs.len() ==> #[trigger] bs[k].0 != key,
    ensures
        table_of(bs).contains_key(key) == table_of(bs.take(i)).contains_key(key),
        table_of(bs).contains_key(key) ==> table_of(bs)[key] == table_of(bs.take(i))[key],
    decreases bs.len(),
{
    if bs.len() > i {
        assert(bs.drop_last().take(i) =~= bs.take(i));
        assert(bs[bs.len() - 1].0 != key);
        lemma_table_unchanged_after(bs.drop_last(), key, i);
    } else {
        assert(bs.take(i) =~= bs);
    }
}

proof fn lemma_prefix_entries(actions: Seq<Seq<KeynavAction>>, lookups: Seq<Seq<TokenLookup>>, n: int)
    requires
        0 <= n,
        resolve_prefix(actions, lookups, n) is Ok,
    ensures
        resolve_prefix(actions, lookups, n)->Ok_0.len() == n,
        forall|k: int|
            0 <= k < n ==> {
                &&& #[trigger] resolve_entry(k, lookups[k]) is Ok
                &&& resolve_prefix(actions, lookups, n)->Ok_0[k] == (
                    resolve_entry(k, lookups[k])->Ok_0,
                    actions[k],
                )
            },
    decreases n,
{
    if n > 0 {
        lemma_prefix_entries(actions, lookups, n - 1);
    }
}

impl Config {
    /// The actions bound to a modifier mask and a key symbol, if any.
    pub fn lookup(&self, mask: u32, keysym: u32) -> (r: Option<Vec<KeynavAction>>)
        ensures
            r is Some == self@.contains_key((mask, keysym)),
            r is Some ==> r->Some_0@ == self@[(mask, keysym)],
    {
        let ghost bs = self.bindings_view();
        let mut i: usize = self.bindings.len();
        while i > 0
            invariant
                i <= self.bindings@.len(),
                bs == self.bindings_view(),
                forall|k: int| i <= k < bs.len() ==> #[trigger] bs[k].0 != (mask, keysym),
            decreases i,
        {
            let b = &self.bindings[i - 1];
            if b.mask == mask && b.keysym == keysym {
                proof {
                    lemma_table_unchanged_after(bs, (mask, keysym), i as int);
                    assert(bs.take(i as int).drop_last() =~= bs.take(i - 1));
                }
                return Some(copy_actions(&b.actions));
            }
            i = i - 1;
        }
        proof {
            lemma_table_unchanged_after(bs, (mask, keysym), 0);
        }
        None
    }
}

/// What a layout, given as a function from names to lookups, says of each
/// name of a configuration.
pub open spec fn describe(
    raw: Seq<(Seq<Seq<char>>, Seq<KeynavAction>)>,
    layout: spec_fn(Seq<char>) -> TokenLookup,
) -> Seq<Seq<TokenLookup>> {
    Seq::new(raw.len(), |i: int| Seq::new(raw[i].0.len(), |j: int| layout(raw[i].0[j])))
}

/// Resolution is a function of the configuration and of what the layout
/// says of its names: the same configuration bound to layouts that agree on
/// every name it uses gives the same table (or the same error).
pub proof fn lemma_resolution_deterministic(
    raw: Seq<(Seq<Seq<char>>, Seq<KeynavAction>)>,
    first: spec_fn(Seq<char>) -> TokenLookup,
    second: spec_fn(Seq<char>) -> TokenLookup,
)
    requires
        forall|i: int, j: int|
            0 <= i < raw.len() && 0 <= j < raw[i].0.len() ==> first(raw[i].0[j]) == second(
                #[trigger] raw[i].0[j],
            ),
    ensures
        resolve(raw, describe(raw, first)) == resolve(raw, describe(raw, second)),
{
    let a = describe(raw, first);
    let b = describe(raw, second);
    assert forall|i: int| 0 <= i < raw.len() implies a[i] == b[i] by {
        assert(a[i] =~= b[i]);
    }
    assert(a =~= b);
}

/// Where two mappings bind the same combination, the later one's actions are
/// what the table holds for it, unless a still later mapping binds it too.
pub proof fn lemma_later_mapping_wins(
    raw: Seq<(Seq<Seq<char>>, Seq<KeynavAction>)>,
    lookups: Seq<Seq<TokenLookup>>,
    earlier: int,
    later: int,
)
    requires
        lookups_match(raw, lookups),
        resolve(raw, lookups) is Ok,
        0 <= earlier < later < raw.len(),
        resolve_entry(earlier, lookups[earlier]) == resolve_entry(later, lookups[later]),
        forall|k: int|
            later < k < raw.len() ==> #[trigger] resolve_entry(k, lookups[k]) != resolve_entry(
                later,
                lookups[later],
            ),
    ensures
        resolve(raw, lookups)->Ok_0.contains_key(resolve_entry(later, lookups[later])->Ok_0),
        resolve(raw, lookups)->Ok_0[resolve_entry(later, lookups[later])->Ok_0] == raw[later].1,
{
    let acts = actions_of(raw);
    let n = raw.len() as int;
    let bs = resolve_prefix(acts, lookups, n)->Ok_0;
    let key = resolve_entry(later, lookups[later])->Ok_0;
    lemma_prefix_entries(acts, lookups, n);
    assert forall|k: int| later + 1 <= k < bs.len() implies #[trigger] bs[k].0 != key by {
        assert(resolve_entry(k, lookups[k]) != resolve_entry(later, lookups[later]));
    }
    lemma_table_unchanged_after(bs, key, later + 1);
    assert(bs.take(later + 1).drop_last() =~= bs.take(later));
}

fn names1(a: &str) -> (r: Vec<String>)
    ensures
        names_view(r) == seq![a@],
{
    let mut r: Vec<String> = Vec::new();
    r.push(String::from_str(a));
    assert(names_view(r) =~= seq![a@]);
    r
}

fn names2(a: &str, b: &str) -> (r: Vec<String>)
    ensures
        names_view(r) == seq![a@, b@],
{
    let mut r: Vec<String> = Vec::new();
    r.push(String::from_str(a));
    r.push(String::from_str(b));
    assert(names_view(r) =~= seq![a@, b@]);
    r
}

fn actions1(a: KeynavAction) -> (r: Vec<KeynavAction>)
    ensures
        r@ == seq![a],
{
    let mut r: Vec<KeynavAction> = Vec::new();
    r.push(a);
    assert(r@ =~= seq![a]);
    r
}

/// The configuration used where none is found: `h`, `j`, `k`, `l` cut
/// left, down, up and right; with `Shift` they move; `semicolon` zooms to a
/// hundred pixels around the pointer; `Return` warps, clicks the left button
/// and ends; `Escape` ends.
pub open spec fn default_mappings() -> Seq<(Seq<Seq<char>>, Seq<KeynavAction>)> {
    seq![
        (seq!["h"@], seq![KeynavAction::CutLeft(None)]),
        (seq!["j"@], seq![KeynavAction::CutDown(None)]),
        (seq!["k"@], seq![KeynavAction::CutUp(None)]),
        (seq!["l"@], seq![KeynavAction::CutRight(None)]),
        (seq!["Shift"@, "h"@], seq![KeynavAction::MoveLeft(None)]),
        (seq!["Shift"@, "j"@], seq![KeynavAction::MoveDown(None)]),
        (seq!["Shift"@, "k"@], seq![KeynavAction::MoveUp(None)]),
        (seq!["Shift"@, "l"@], seq![KeynavAction::MoveRight(None)]),
        (seq!["semicolon"@], seq![KeynavAction::CursorZoom { width: 100, height: 100 }]),
        (
            seq!["Return"@],
            seq![
                KeynavAction::Warp,
                KeynavAction::Click(Some(MouseButton::Left)),
                KeynavAction::End,
            ],
        ),
        (seq!["Escape"@], seq![KeynavAction::End]),
    ]
}

pub fn default_config() -> (r: RawConfig)
    ensures
        r@ == default_mappings(),
{
    let mut mappings: Vec<(Vec<String>, Vec<KeynavAction>)> = Vec::new();
    mappings.push((names1("h"), actions1(KeynavAction::CutLeft(None))));
    mappings.push((names1("j"), actions1(KeynavAction::CutDown(None))));
    mappings.push((names1("k"), actions1(KeynavAction::CutUp(None))));
    mappings.push((names1("l"), actions1(KeynavAction::CutRight(None))));
    mappings.push((names2("Shift", "h"), actions1(KeynavAction::MoveLeft(None))));
    mappings.push((names2("Shift", "j"), actions1(KeynavAction::MoveDown(None))));
    mappings.push((names2("Shift", "k"), actions1(KeynavAction::MoveUp(None))));
    mappings.push((names2("Shift", "l"), actions1(KeynavAction::MoveRight(None))));
    mappings.push(
        (names1("semicolon"), actions1(KeynavAction::CursorZoom { width: 100, height: 100 })),
    );
    let mut finish: Vec<KeynavAction> = Vec::new();
    finish.push(KeynavAction::Warp);
    finish.push(KeynavAction::Click(Some(MouseButton::Left)));
    finish.push(KeynavAction::End);
    assert(finish@ =~= seq![
        KeynavAction::Warp,
        KeynavAction::Click(Some(MouseButton::Left)),
        KeynavAction::End,
    ]);
    mappings.push((names1("Return"), finish));
    mappings.push((names1("Escape"), actions1(KeynavAction::End)));
    let r = RawConfig { mappings };
    assert(r@ =~= default_mappings());
    r
}

} // verus!
