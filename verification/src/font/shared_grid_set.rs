//! The grids in use, by font configuration, each for as long as something
//! refers to it.
#[allow(unused_imports)]
use crate::font::backend::variation::primary_outcome;
use crate::font::backend::variation::{resolve_primary_faces, StyleError, StyleVariationRequest};
use crate::font::collection::{Collection, CollectionFullError, CollectionModel};
use crate::font::resolver::CodepointResolver;
use crate::font::settings::{FontAxisSpec, FontAxisValue};
#[allow(unused_imports)]
use crate::font::shared_grid::{first_refused, new_grid, with_primary_faces};
use crate::font::shared_grid::{GridMetrics, GridModel, SharedGrid};
use crate::font::types::Style;
use crate::rapid::{map_get, map_get_mut, map_insert, map_len, map_remove, map_with_capacity};
use rapidhash::RapidHashMap;
use vstd::prelude::*;

verus! {

/// A grid and the number of references to it.
#[verifier::ext_equal]
pub struct RefModel {
    pub grid: GridModel,
    pub refs: u32,
}

/// A grid and the number of references to it.
pub struct ReffedGrid {
    grid: Box<SharedGrid>,
    refs: u32,
}

impl View for ReffedGrid {
    type V = RefModel;

    closed spec fn view(&self) -> RefModel {
        RefModel { grid: self.grid@, refs: self.refs }
    }
}

/// The grids after a reference to one of them was added.
pub open spec fn with_ref(grids: Map<u64, RefModel>, key: u64) -> Map<u64, RefModel> {
    grids.insert(
        key,
        RefModel { grid: grids[key].grid, refs: (grids[key].refs + 1) as u32 },
    )
}

/// The grids after a grid was stored, with one reference.
pub open spec fn with_grid(grids: Map<u64, RefModel>, key: u64, grid: GridModel) -> Map<
    u64,
    RefModel,
> {
    grids.insert(key, RefModel { grid, refs: 1 })
}

/// The grids after a reference was taken away: a grid goes with its last one.
pub open spec fn without_ref(grids: Map<u64, RefModel>, key: u64) -> Map<u64, RefModel> {
    if !grids.contains_key(key) {
        grids
    } else if grids[key].refs > 1 {
        grids.insert(
            key,
            RefModel { grid: grids[key].grid, refs: (grids[key].refs - 1) as u32 },
        )
    } else {
        grids.remove(key)
    }
}

/// Taking away a reference undoes adding it, and the last one takes its grid
/// with it.
pub proof fn law_deref_undoes_ref(grids: Map<u64, RefModel>, key: u64, grid: GridModel)
    ensures
        grids.contains_key(key) && 0 < grids[key].refs < u32::MAX ==> without_ref(
            with_ref(grids, key),
            key,
        ) == grids,
        !grids.contains_key(key) ==> without_ref(with_grid(grids, key, grid), key) == grids,
{
    if grids.contains_key(key) && 0 < grids[key].refs < u32::MAX {
        assert(without_ref(with_ref(grids, key), key) =~= grids);
    }
    if !grids.contains_key(key) {
        assert(without_ref(with_grid(grids, key, grid), key) =~= grids);
    }
}

/// The grids by their key.
pub struct SharedGridSet {
    grids: RapidHashMap<u64, ReffedGrid>,
}

impl View for SharedGridSet {
    type V = Map<u64, RefModel>;

    closed spec fn view(&self) -> Map<u64, RefModel> {
        self.grids@.map_values(|entry: ReffedGrid| entry@)
    }
}

impl SharedGridSet {
    /// A set without grids.
    pub fn new() -> (set: SharedGridSet)
        ensures
            set@ == Map::<u64, RefModel>::empty(),
    {
        let set = SharedGridSet { grids: map_with_capacity(0) };
        assert(set@ =~= Map::empty());
        set
    }

    /// Number of grids.
    pub fn count(&self) -> (count: usize)
        ensures
            count == self@.len(),
    {
        assert(self@.dom() =~= self.grids@.dom());
        map_len(&self.grids)
    }

    /// The grid of a key.
    pub fn get(&self, key: u64) -> (grid: Option<&SharedGrid>)
        ensures
            match grid {
                Some(grid) => self@.contains_key(key) && grid@ == self@[key].grid,
                None => !self@.contains_key(key),
            },
    {
        match map_get(&self.grids, key) {
            Some(entry) => Some(&entry.grid),
            None => None,
        }
    }

    /// The grid of a key, to work with.
    pub fn get_mut(&mut self, key: u64) -> (grid: Option<&mut SharedGrid>)
        ensures
            match grid {
                Some(grid) => {
                    &&& old(self)@.contains_key(key)
                    &&& grid@ == old(self)@[key].grid
                    &&& final(self)@ == old(self)@.insert(
                        key,
                        RefModel { grid: final(grid)@, refs: old(self)@[key].refs },
                    )
                },
                None => !old(self)@.contains_key(key) && final(self)@ == old(self)@,
            },
    {
        let ghost before = self.grids@;
        match map_get_mut(&mut self.grids, key) {
            Some(entry) => {
                assert(old(self)@[key] == before[key]@);
                let grid = &mut *entry.grid;
                assert(after_borrow(self)@ =~= old(self)@.insert(
                    key,
                    RefModel { grid: final(grid)@, refs: old(self)@[key].refs },
                ));
                Some(grid)
            },
            None => None,
        }
    }

    /// Adds a reference to the grid of a key, which `init` makes if there is
    /// none, and gives the grid.
    pub fn ref_or_insert_with<F>(&mut self, key: u64, init: F) -> (grid: &SharedGrid) where
        F: FnOnce() -> SharedGrid,

        requires
            init.requires(()),
            old(self)@.contains_key(key) ==> old(self)@[key].refs < u32::MAX,
        ensures
            final(self)@.contains_key(key),
            grid@ == final(self)@[key].grid,
            old(self)@.contains_key(key) ==> final(self)@ == with_ref(old(self)@, key),
            !old(self)@.contains_key(key) ==> exists|made: SharedGrid| #[trigger]
                init.ensures((), made) && final(self)@ == with_grid(old(self)@, key, made@),
    {
        if !self.add_ref(key) {
            let made = init();
            self.insert_new(key, made);
        }
        self.get(key).unwrap()
    }

    /// Adds a reference to the grid of a key, which `init` makes if there is
    /// none. If that fails the set stays as it is.
    pub fn try_ref_or_insert_with<F, E>(&mut self, key: u64, init: F) -> (grid: Result<
        &SharedGrid,
        E,
    >) where F: FnOnce() -> Result<SharedGrid, E>
        requires
            init.requires(()),
            old(self)@.contains_key(key) ==> old(self)@[key].refs < u32::MAX,
        ensures
            grid matches Ok(grid) ==> final(self)@.contains_key(key) && grid@ == final(self)@[key].grid,
            old(self)@.contains_key(key) ==> grid is Ok && final(self)@ == with_ref(old(self)@, key),
            !old(self)@.contains_key(key) ==> match grid {
                Ok(_) => exists|made: SharedGrid| #[trigger]
                    init.ensures((), Ok(made)) && final(self)@ == with_grid(
                        old(self)@,
                        key,
                        made@,
                    ),
                Err(error) => init.ensures((), Err(error)) && final(self)@ == old(self)@,
            },
    {
        if !self.add_ref(key) {
            match init() {
                Ok(made) => {
                    self.insert_new(key, made);
                },
                Err(error) => {
                    return Err(error);
                },
            }
        }
        Ok(self.get(key).unwrap())
    }

    /// Adds a reference to the grid of a key, if there is one.
    fn add_ref(&mut self, key: u64) -> (known: bool)
        requires
            old(self)@.contains_key(key) ==> old(self)@[key].refs < u32::MAX,
        ensures
            known == old(self)@.contains_key(key),
            final(self)@ == if known {
                with_ref(old(self)@, key)
            } else {
                old(self)@
            },
    {
        let ghost before = self.grids@;
        match map_get_mut(&mut self.grids, key) {
            Some(entry) => {
                assert(old(self)@[key] == before[key]@);
                entry.refs = entry.refs + 1;
                assert(self@ =~= with_ref(old(self)@, key));
                true
            },
            None => false,
        }
    }

    /// Stores a grid with one reference.
    fn insert_new(&mut self, key: u64, grid: SharedGrid)
        ensures
            final(self)@ == with_grid(old(self)@, key, grid@),
    {
        let entry = ReffedGrid { grid: Box::new(grid), refs: 1 };
        let _ = map_insert(&mut self.grids, key, entry);
        assert(self@ =~= with_grid(old(self)@, key, grid@));
    }

    /// Takes a reference to the grid of a key away. The grid goes with its
    /// last reference; a key without a grid is passed over.
    pub fn deref(&mut self, key: &u64)
        ensures
            final(self)@ == without_ref(old(self)@, *key),
    {
        let ghost before = self.grids@;
        match map_get_mut(&mut self.grids, *key) {
            None => {
                return;
            },
            Some(entry) => {
                assert(old(self)@[*key] == before[*key]@);
                if entry.refs > 1 {
                    entry.refs = entry.refs - 1;
                    assert(self@ =~= without_ref(old(self)@, *key));
                    return;
                }
            },
        }
        let _ = map_remove(&mut self.grids, *key);
        assert(self@ =~= without_ref(old(self)@, *key));
    }
}

impl Default for SharedGridSet {
    fn default() -> (set: SharedGridSet)
        ensures
            set@ == Map::<u64, RefModel>::empty(),
    {
        SharedGridSet::new()
    }
}

/// The part of a style's configuration that tells grids apart.
#[derive(Debug)]
pub struct DWriteStyleKey {
    pub family: String,
    /// Axis tags with the whole part of their value.
    pub axes: Vec<(u32, i64)>,
}

/// The identity of the system's fallback objects.
#[derive(Clone, Copy, Debug, PartialEq, Eq, Structural)]
pub struct DWriteFallbackKey {
    pub base_family_ptr: u64,
    pub base_collection_ptr: u64,
    pub fallback_ptr: u64,
}

/// The part of a configuration that tells grids apart.
#[derive(Debug)]
pub struct DWriteGridKey {
    pub locale: String,
    pub metrics: GridMetrics,
    pub max_atlas_size: u32,
    pub styles: [DWriteStyleKey; 4],
    pub fallback: Option<DWriteFallbackKey>,
}

/// A style key with its text and axes as sequences.
pub struct StyleKeyView {
    pub family: Seq<char>,
    pub axes: Seq<(u32, i64)>,
}

impl View for DWriteStyleKey {
    type V = StyleKeyView;

    open spec fn view(&self) -> StyleKeyView {
        StyleKeyView { family: self.family@, axes: self.axes@ }
    }
}

/// A grid key with its texts as sequences.
pub struct GridKeyView {
    pub locale: Seq<char>,
    pub metrics: GridMetrics,
    pub max_atlas_size: u32,
    pub normal: StyleKeyView,
    pub bold: StyleKeyView,
    pub italic: StyleKeyView,
    pub bold_italic: StyleKeyView,
    pub fallback: Option<DWriteFallbackKey>,
}

impl View for DWriteGridKey {
    type V = GridKeyView;

    open spec fn view(&self) -> GridKeyView {
        GridKeyView {
            locale: self.locale@,
            metrics: self.metrics,
            max_atlas_size: self.max_atlas_size,
            normal: self.styles[0]@,
            bold: self.styles[1]@,
            italic: self.styles[2]@,
            bold_italic: self.styles[3]@,
            fallback: self.fallback,
        }
    }
}

impl DWriteStyleKey {
    /// Whether two style keys are the same.
    pub fn same_as(&self, other: &DWriteStyleKey) -> (same: bool)
        ensures
            same == (self@ == other@),
    {
        if self.family != other.family || self.axes.len() != other.axes.len() {
            return false;
        }
        let mut i: usize = 0;
        while i < self.axes.len()
            invariant
                self.axes@.len() == other.axes@.len(),
                i <= self.axes@.len(),
                forall|j: int| 0 <= j < i ==> self.axes@[j] == other.axes@[j],
            decreases self.axes@.len() - i,
        {
            let (tag, value) = self.axes[i];
            let (other_tag, other_value) = other.axes[i];
            if tag != other_tag || value != other_value {
                assert(self.axes@[i as int] != other.axes@[i as int]);
                return false;
            }
            i += 1;
        }
        assert(self.axes@ =~= other.axes@);
        true
    }
}

impl DWriteGridKey {
    /// Whether two grid keys are the same.
    pub fn same_as(&self, other: &DWriteGridKey) -> (same: bool)
        ensures
            same == (self@ == other@),
    {
        let fallback: bool = match (self.fallback, other.fallback) {
            (Some(a), Some(b)) => a == b,
            (None, None) => true,
            _ => false,
        };
        self.locale == other.locale && self.metrics == other.metrics && self.max_atlas_size
            == other.max_atlas_size && self.styles[0].same_as(&other.styles[0])
            && self.styles[1].same_as(&other.styles[1]) && self.styles[2].same_as(&other.styles[2])
            && self.styles[3].same_as(&other.styles[3]) && fallback
    }

    /// The key of a configuration.
    pub fn from_config(config: &DWriteGridConfig) -> (key: DWriteGridKey)
        ensures
            key@ == config.key(),
    {
        DWriteGridKey {
            locale: config.locale.clone(),
            metrics: config.metrics,
            max_atlas_size: config.max_atlas_size,
            styles: [
                config.styles[0].to_key(),
                config.styles[1].to_key(),
                config.styles[2].to_key(),
                config.styles[3].to_key(),
            ],
            fallback: config.fallback,
        }
    }
}

/// A style's font family and axis values.
#[derive(Debug)]
pub struct DWriteStyleConfig {
    pub family: String,
    pub axes: FontAxisSpec,
}

/// The tags of axis values with the whole part of each value.
pub open spec fn whole_axes(values: Seq<FontAxisValue>) -> Seq<(u32, i64)> {
    values.map_values(
        |value: FontAxisValue|
            (value.tag, crate::font::settings::whole_part(value.value_bits) as i64),
    )
}

impl DWriteStyleConfig {
    /// The key of the style.
    pub open spec fn key(self) -> StyleKeyView {
        StyleKeyView { family: self.family@, axes: whole_axes(self.axes.values@) }
    }

    /// The key of the style.
    pub fn to_key(&self) -> (key: DWriteStyleKey)
        ensures
            key@ == self.key(),
    {
        let mut axes: Vec<(u32, i64)> = Vec::new();
        let mut i: usize = 0;
        while i < self.axes.values.len()
            invariant
                i <= self.axes.values@.len(),
                axes@ == whole_axes(self.axes.values@.take(i as int)),
            decreases self.axes.values@.len() - i,
        {
            let value = self.axes.values[i];
            axes.push((value.tag, crate::font::settings::truncate_bits(value.value_bits)));
            assert(axes@ =~= whole_axes(self.axes.values@.take(i + 1)));
            i += 1;
        }
        assert(self.axes.values@.take(self.axes.values@.len() as int) =~= self.axes.values@);
        DWriteStyleKey { family: self.family.clone(), axes }
    }
}

/// Everything that a grid is made from.
#[derive(Debug)]
pub struct DWriteGridConfig {
    pub locale: String,
    pub styles: [DWriteStyleConfig; 4],
    pub metrics: GridMetrics,
    pub max_atlas_size: u32,
    pub fallback: Option<DWriteFallbackKey>,
}

impl DWriteGridConfig {
    /// One family for all styles, without axis values, limits or fallback.
    pub fn with_single_family(family: String, locale: String) -> (config: DWriteGridConfig)
        ensures
            config.locale@ == locale@,
            forall|i: int|
                0 <= i < 4 ==> (#[trigger] config.styles[i]).family@ == family@
                    && config.styles[i].axes.values@ == Seq::<FontAxisValue>::empty(),
            config.metrics == (GridMetrics {
                cell_width_bits: 0,
                cell_height_bits: 0,
                baseline_bits: 0,
            }),
            config.max_atlas_size == 0,
            config.fallback is None,
    {
        DWriteGridConfig {
            locale,
            styles: [
                DWriteStyleConfig { family: family.clone(), axes: FontAxisSpec::default() },
                DWriteStyleConfig { family: family.clone(), axes: FontAxisSpec::default() },
                DWriteStyleConfig { family: family.clone(), axes: FontAxisSpec::default() },
                DWriteStyleConfig { family, axes: FontAxisSpec::default() },
            ],
            metrics: GridMetrics::default(),
            max_atlas_size: 0,
            fallback: None,
        }
    }
}

/// Numbers for grid keys: the same key always has the same number.
pub struct GridKeys {
    keys: Vec<DWriteGridKey>,
}

impl GridKeys {
    /// The keys by their number.
    pub closed spec fn listed(&self) -> Seq<GridKeyView> {
        self.keys@.map_values(|key: DWriteGridKey| key@)
    }

    /// No key has two numbers.
    pub open spec fn wf(&self) -> bool {
        self.listed().no_duplicates()
    }

    /// No keys.
    pub fn new() -> (keys: GridKeys)
        ensures
            keys.wf(),
            keys.listed() == Seq::<GridKeyView>::empty(),
    {
        let keys = GridKeys { keys: Vec::new() };
        assert(keys.listed() =~= Seq::empty());
        keys
    }

    /// The number of a key, a new one if it has none yet.
    pub fn number_of(&mut self, key: DWriteGridKey) -> (number: usize)
        requires
            old(self).wf(),
        ensures
            final(self).wf(),
            number < final(self).listed().len(),
            final(self).listed()[number as int] == key@,
            final(self).listed() == if old(self).listed().contains(key@) {
                old(self).listed()
            } else {
                old(self).listed().push(key@)
            },
    {
        let ghost before = self.listed();
        let mut i: usize = 0;
        while i < self.keys.len()
            invariant
                *self == *old(self),
                self.wf(),
                before == self.listed(),
                i <= self.keys@.len(),
                forall|j: int| 0 <= j < i ==> #[trigger] before[j] != key@,
            decreases self.keys@.len() - i,
        {
            if self.keys[i].same_as(&key) {
                assert(before[i as int] == key@);
                return i;
            }
            i += 1;
        }
        assert(!before.contains(key@));
        self.keys.push(key);
        assert(self.listed() =~= before.push(key@));
        i
    }
}

/// A collection without faces.
pub open spec fn no_faces() -> CollectionModel {
    CollectionModel {
        normal: Seq::empty(),
        bold: Seq::empty(),
        italic: Seq::empty(),
        bold_italic: Seq::empty(),
    }
}

/// Why there is no grid for a configuration.
#[derive(Clone, Copy, Debug, PartialEq, Eq, Structural)]
pub enum GridError {
    /// A style has no face.
    Style(StyleError),
    /// A face found no place.
    Full(CollectionFullError),
}

impl DWriteGridConfig {
    /// The key of the configuration.
    pub open spec fn key(self) -> GridKeyView {
        GridKeyView {
            locale: self.locale@,
            metrics: self.metrics,
            max_atlas_size: self.max_atlas_size,
            normal: self.styles[0].key(),
            bold: self.styles[1].key(),
            italic: self.styles[2].key(),
            bold_italic: self.styles[3].key(),
            fallback: self.fallback,
        }
    }

    /// The styles' families are what is asked for.
    pub open spec fn asks(self, requests: [StyleVariationRequest<'_>; 4]) -> bool {
        forall|i: int|
            0 <= i < 4 ==> (#[trigger] requests@[i]).family@ == self.styles[i].family@
    }

    /// The grid is a new one with these primary faces, which asks the system for
    /// others if there is a fallback.
    pub open spec fn makes(self, faces: [u64; 4], grid: GridModel) -> bool {
        &&& grid == new_grid(grid.resolver, self.metrics, self.max_atlas_size)
        &&& grid.resolver.collection == with_primary_faces(no_faces(), faces@, 4)
        &&& grid.resolver.has_fallback == self.fallback is Some
        &&& grid.resolver.fallback_faces == Map::<u64, Option<u64>>::empty()
        &&& forall|style: Style| #[trigger] grid.resolver.styles.enabled(style)
    }
}

/// What comes of making the grid of a configuration.
pub open spec fn grid_outcome<F: Fn(bool, Style, &str) -> Option<u64>>(
    lookup: F,
    config: DWriteGridConfig,
    grid: Result<GridModel, GridError>,
) -> bool {
    exists|requests: [StyleVariationRequest<'_>; 4], faces: Result<[u64; 4], StyleError>|
        {
            &&& config.asks(requests)
            &&& #[trigger] primary_outcome(lookup, requests, faces)
            &&& match faces {
                Err(error) => grid == Err::<GridModel, GridError>(GridError::Style(error)),
                Ok(faces) => match grid {
                    Ok(grid) => first_refused(no_faces(), faces@) == 4 && config.makes(faces, grid),
                    Err(error) => error is Full && first_refused(no_faces(), faces@) < 4,
                },
            }
        }
}

/// Makes the grid of a configuration. `lookup` finds faces; see
/// [`resolve_primary_faces`].
pub fn make_grid<F: Fn(bool, Style, &str) -> Option<u64>>(config: &DWriteGridConfig, lookup: &F) -> (
    grid: Result<SharedGrid, GridError>)
    requires
        forall|r: bool, s: Style, f: &str| lookup.requires((r, s, f)),
    ensures
        grid_outcome(
            *lookup,
            *config,
            match grid {
                Ok(grid) => Ok(grid@),
                Err(error) => Err(error),
            },
        ),
{
    let mut grid = SharedGrid::with_atlas_max_size(
        CodepointResolver::new(Collection::new()),
        config.metrics,
        config.max_atlas_size,
    );
    let requests: [StyleVariationRequest<'_>; 4] = [
        StyleVariationRequest {
            family: config.styles[0].family.as_str(),
            axes: config.styles[0].axes.clone(),
        },
        StyleVariationRequest {
            family: config.styles[1].family.as_str(),
            axes: config.styles[1].axes.clone(),
        },
        StyleVariationRequest {
            family: config.styles[2].family.as_str(),
            axes: config.styles[2].axes.clone(),
        },
        StyleVariationRequest {
            family: config.styles[3].family.as_str(),
            axes: config.styles[3].axes.clone(),
        },
    ];
    assert(config.asks(requests));
    let found = resolve_primary_faces(lookup, &requests);
    assert(primary_outcome(*lookup, requests, found));
    match found {
        Err(error) => Err(GridError::Style(error)),
        Ok(faces) => {
            match grid.configure_dwrite_primary_faces(faces) {
                Err(error) => Err(GridError::Full(error)),
                Ok(()) => {
                    if config.fallback.is_some() {
                        grid.set_dwrite_fallback();
                    }
                    assert(config.makes(faces, grid@));
                    Ok(grid)
                },
            }
        },
    }
}

impl SharedGridSet {
    /// Adds a reference to the grid of a configuration, which is made if there
    /// is none, and gives its key. If making it fails the grids stay as they
    /// are.
    pub fn ref_dwrite<F: Fn(bool, Style, &str) -> Option<u64>>(
        &mut self,
        keys: &mut GridKeys,
        config: &DWriteGridConfig,
        lookup: &F,
    ) -> (key: Result<u64, GridError>)
        requires
            old(keys).wf(),
            forall|r: bool, s: Style, f: &str| lookup.requires((r, s, f)),
            forall|k: u64| old(self)@.contains_key(k) ==> #[trigger] old(self)@[k].refs < u32::MAX,
        ensures
            final(keys).wf(),
            final(keys).listed() == if old(keys).listed().contains(config.key()) {
                old(keys).listed()
            } else {
                old(keys).listed().push(config.key())
            },
            ({
                let number = final(keys).listed().index_of(config.key()) as u64;
                if old(self)@.contains_key(number) {
                    &&& key == Ok::<u64, GridError>(number)
                    &&& final(self)@ == with_ref(old(self)@, number)
                } else {
                    match key {
                        Ok(key) => {
                            &&& key == number
                            &&& exists|grid: GridModel| #[trigger]
                                grid_outcome(*lookup, *config, Ok(grid)) && final(self)@
                                    == with_grid(old(self)@, number, grid)
                        },
                        Err(error) => {
                            &&& grid_outcome(*lookup, *config, Err(error))
                            &&& final(self)@ == old(self)@
                        },
                    }
                }
            }),
    {
        let number: u64 = keys.number_of(DWriteGridKey::from_config(config)) as u64;
        proof {
            let listed = keys.listed();
            let found = listed.index_of(config.key());
            assert(listed.contains(config.key()));
            assert(listed[found] == config.key());
            assert(found == number);
        }
        if self.add_ref(number) {
            return Ok(number);
        }
        match make_grid(config, lookup) {
            Err(error) => Err(error),
            Ok(grid) => {
                assert(grid_outcome(*lookup, *config, Ok(grid@)));
                self.insert_new(number, grid);
                Ok(number)
            },
        }
    }
}

/// References are counted one by one: a new grid has one, each that is added or taken
/// away counts, and a grid stays as it is until its last one goes. Other grids are
/// not touched.
pub proof fn law_references_are_counted(
    grids: Map<u64, RefModel>,
    key: u64,
    other: u64,
    grid: GridModel,
)
    requires
        grids.contains_key(key) ==> 0 < grids[key].refs < u32::MAX,
        other != key,
    ensures
        with_grid(grids, key, grid).contains_key(key),
        with_grid(grids, key, grid)[key].refs == 1,
        with_grid(grids, key, grid)[key].grid == grid,
        grids.contains_key(key) ==> {
            &&& with_ref(grids, key)[key].refs == grids[key].refs + 1
            &&& with_ref(grids, key)[key].grid == grids[key].grid
            &&& without_ref(grids, key).contains_key(key) == (grids[key].refs > 1)
            &&& grids[key].refs > 1 ==> without_ref(grids, key)[key].refs == grids[key].refs - 1
                && without_ref(grids, key)[key].grid == grids[key].grid
        },
        !grids.contains_key(key) ==> without_ref(grids, key) == grids,
        with_grid(grids, key, grid).contains_key(other) == grids.contains_key(other),
        without_ref(grids, key).contains_key(other) == grids.contains_key(other),
        grids.contains_key(other) ==> with_grid(grids, key, grid)[other] == grids[other]
            && with_ref(grids, key)[other] == grids[other] && without_ref(grids, key)[other]
            == grids[other],
{
}

/// Two configurations share a grid only if they agree in everything that a grid is
/// made from: locale, metrics, limit, fallback, and for each style the family, the
/// axes and the whole parts of their values.
pub proof fn law_keys_tell_configurations_apart(
    a: DWriteGridConfig,
    b: DWriteGridConfig,
    style: int,
    i: int,
)
    requires
        a.key() == b.key(),
        0 <= style < 4,
    ensures
        a.locale@ == b.locale@,
        a.metrics == b.metrics,
        a.max_atlas_size == b.max_atlas_size,
        a.fallback == b.fallback,
        a.styles[style].family@ == b.styles[style].family@,
        a.styles[style].axes.values@.len() == b.styles[style].axes.values@.len(),
        0 <= i < a.styles[style].axes.values@.len() ==> {
            let one = a.styles[style].axes.values@[i];
            let two = b.styles[style].axes.values@[i];
            &&& one.tag == two.tag
            &&& crate::font::settings::whole_part(one.value_bits) as i64
                == crate::font::settings::whole_part(two.value_bits) as i64
        },
{
    let one = a.styles[style].axes.values@;
    let two = b.styles[style].axes.values@;
    assert(a.styles[style].key() == b.styles[style].key());
    assert(whole_axes(one) == whole_axes(two));
    assert(whole_axes(one).len() == one.len());
    assert(whole_axes(two).len() == two.len());
    if 0 <= i < one.len() {
        assert(whole_axes(one)[i] == whole_axes(two)[i]);
    }
}

/// Two configurations that agree in all of that do share a grid.
pub proof fn law_same_configuration_same_key(a: DWriteGridConfig, b: DWriteGridConfig)
    requires
        a.locale@ == b.locale@,
        a.metrics == b.metrics,
        a.max_atlas_size == b.max_atlas_size,
        a.fallback == b.fallback,
        forall|style: int|
            0 <= style < 4 ==> (#[trigger] a.styles[style]).family@ == b.styles[style].family@
                && a.styles[style].axes.values@ == b.styles[style].axes.values@,
    ensures
        a.key() == b.key(),
{
    assert(a.styles[0].key() == b.styles[0].key());
    assert(a.styles[1].key() == b.styles[1].key());
    assert(a.styles[2].key() == b.styles[2].key());
    assert(a.styles[3].key() == b.styles[3].key());
}

/// A new grid has the metrics and the limit of its configuration, blank atlases of
/// 512 by 512 pixels in one byte and in four, and no glyphs. Each style has the face
/// that was found for its family, and the system is asked for others only with a
/// fallback.
pub proof fn law_grid_of_a_configuration<F: Fn(bool, Style, &str) -> Option<u64>>(
    lookup: F,
    config: DWriteGridConfig,
    grid: GridModel,
)
    requires
        grid_outcome(lookup, config, Ok(grid)),
    ensures
        grid.metrics == config.metrics,
        grid.max_atlas_size == config.max_atlas_size,
        grid.raster_cell_width is None,
        grid.codepoints == Map::<u64, Option<crate::font::types::FontIndex>>::empty(),
        grid.glyphs.dom().is_empty(),
        grid.grayscale.side == 512 && grid.grayscale.format is Grayscale,
        grid.color.side == 512 && grid.color.format is Bgra,
        forall|k: int|
            0 <= k < grid.grayscale.pixels.len() ==> #[trigger] grid.grayscale.pixels[k] == 0,
        forall|k: int| 0 <= k < grid.color.pixels.len() ==> #[trigger] grid.color.pixels[k] == 0,
        grid.resolver.has_fallback == config.fallback is Some,
        forall|style: Style| #[trigger] grid.resolver.styles.enabled(style),
        exists|requests: [StyleVariationRequest<'_>; 4], faces: [u64; 4]|
            {
                &&& #[trigger] primary_outcome(lookup, requests, Ok(faces))
                &&& forall|i: int|
                    0 <= i < 4 ==> (#[trigger] requests@[i]).family@ == config.styles[i].family@
                &&& grid.resolver.collection.faces(Style::Normal).len() == 1
                &&& grid.resolver.collection.faces(Style::Normal)[0].handle == faces@[0]
                &&& grid.resolver.collection.faces(Style::Bold).len() == 1
                &&& grid.resolver.collection.faces(Style::Bold)[0].handle == faces@[1]
                &&& grid.resolver.collection.faces(Style::Italic).len() == 1
                &&& grid.resolver.collection.faces(Style::Italic)[0].handle == faces@[2]
                &&& grid.resolver.collection.faces(Style::BoldItalic).len() == 1
                &&& grid.resolver.collection.faces(Style::BoldItalic)[0].handle == faces@[3]
            },
{
    let (requests, faces) = choose|
        requests: [StyleVariationRequest<'_>; 4],
        faces: Result<[u64; 4], StyleError>,
    |
        {
            &&& config.asks(requests)
            &&& #[trigger] primary_outcome(lookup, requests, faces)
            &&& match faces {
                Err(error) => false,
                Ok(faces) => first_refused(no_faces(), faces@) == 4 && config.makes(faces, grid),
            }
        };
    let found = faces->Ok_0;
    assert(primary_outcome(lookup, requests, Ok(found)));
    assert(config.makes(found, grid));
    assert forall|style: Style| #[trigger] no_faces().faces(style).len() == 0 by {}
    crate::font::grid_fonts::law_primary_faces_by_style(no_faces(), found@);
}

} // verus!
