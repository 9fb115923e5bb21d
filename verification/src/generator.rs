use crate::chunk::{ChunkGeneration, Tile};
use crate::error::GenerationError;
use crate::named::{
    as_map, distinct_names, entries, find, has_name, lemma_first_unique, lemma_put, put,
};
use crate::noise_parameters::{NoiseField, NoiseParameters};
use crate::tile_generation::TileGeneration;
use crate::types::Vector2;
use vstd::prelude::*;

verus! {

/// Tiles in one row of a chunk.
pub const CHUNK_WIDTH: usize = 50;

/// Rows of a chunk.
pub const CHUNK_HEIGHT: usize = 50;

/// Name of a noise parameter.
pub type GenerationParameter = String;

/// The sampler answers for every valid noise at every position, and the same
/// question always alike.
pub open spec fn sampler_ok<S: Fn(NoiseField, Vector2<i64>) -> i64>(sampler: S) -> bool {
    &&& forall|noise: NoiseField, position: Vector2<i64>|
        noise.parameters.valid() ==> call_requires(sampler, (noise, position))
    &&& forall|noise: NoiseField, position: Vector2<i64>, a: i64, b: i64|
        call_ensures(sampler, (noise, position), a) && call_ensures(sampler, (noise, position), b)
            ==> a == b
}

/// The value of `noise` at `position`, as `sampler` gives it.
pub open spec fn sample_of<S: Fn(NoiseField, Vector2<i64>) -> i64>(
    sampler: S,
    noise: NoiseField,
    position: Vector2<i64>,
) -> i64 {
    choose|value: i64| call_ensures(sampler, (noise, position), value)
}

/// Rule `w` accepts `values`, no accepting rule among the first `n` scores
/// lower, and none before `w` scores as low.
pub open spec fn is_winner_among<T>(
    rules: Seq<(T, TileGeneration)>,
    values: Map<Seq<char>, i64>,
    n: int,
    w: int,
) -> bool {
    &&& 0 <= w < n <= rules.len()
    &&& rules[w].1.score(values) is Some
    &&& forall|k: int|
        0 <= k < n && (#[trigger] rules[k]).1.score(values) is Some ==> if k < w {
            rules[k].1.score(values)->0 > rules[w].1.score(values)->0
        } else {
            rules[k].1.score(values)->0 >= rules[w].1.score(values)->0
        }
}

/// Rule `w` wins `values`: it accepts them with the lowest score of all, and
/// is the first to do so.
pub open spec fn is_winner<T>(
    rules: Seq<(T, TileGeneration)>,
    values: Map<Seq<char>, i64>,
    w: int,
) -> bool {
    is_winner_among(rules, values, rules.len() as int, w)
}

/// The category that `rules` give to `values`: that of the winning rule, or
/// nothing where every rule rejects.
pub open spec fn classification<T>(
    rules: Seq<(T, TileGeneration)>,
    values: Map<Seq<char>, i64>,
) -> Tile<T> {
    if exists|w: int| is_winner(rules, values, w) {
        Some(rules[choose|w: int| is_winner(rules, values, w)].0)
    } else {
        None
    }
}

/// At most one rule wins.
pub proof fn lemma_winner_unique<T>(
    rules: Seq<(T, TileGeneration)>,
    values: Map<Seq<char>, i64>,
    v: int,
    w: int,
)
    requires
        is_winner(rules, values, v),
        is_winner(rules, values, w),
    ensures
        v == w,
{
    if v < w {
        assert(rules[v].1.score(values)->0 > rules[w].1.score(values)->0);
        assert(rules[w].1.score(values)->0 >= rules[v].1.score(values)->0);
    }
    if w < v {
        assert(rules[w].1.score(values)->0 > rules[v].1.score(values)->0);
        assert(rules[v].1.score(values)->0 >= rules[w].1.score(values)->0);
    }
}

/// Where the tile in column `local.x` and row `local.y` of chunk `chunk_pos`
/// lies in the world, for tiles of size `tile_size`.
pub open spec fn tile_position(
    chunk_pos: Vector2<i32>,
    tile_size: Vector2<u16>,
    local: Vector2<usize>,
) -> Vector2<i64> {
    Vector2 {
        x: (chunk_pos.x * (CHUNK_WIDTH * tile_size.x) + local.x * tile_size.x) as i64,
        y: (chunk_pos.y * (CHUNK_HEIGHT * tile_size.y) + local.y * tile_size.y) as i64,
    }
}

/// One axis of `tile_position`.
fn tile_coordinate(chunk: i32, tiles: usize, tile_size: u16, local: usize) -> (at: i64)
    requires
        tiles <= 50,
        local < 50,
    ensures
        at == chunk * (tiles * tile_size) + local * tile_size,
        -0x20_0000_0000_0000 < at < 0x20_0000_0000_0000,
{
    assert(0 <= tiles * tile_size <= 3276750) by (nonlinear_arith)
        requires
            0 <= tiles <= 50,
            0 <= tile_size <= 65535,
    ;
    let span: i64 = tiles as i64 * tile_size as i64;
    assert(-0x8000_0000 * 3276750 <= chunk * span <= 0x8000_0000 * 3276750) by (nonlinear_arith)
        requires
            -0x8000_0000 <= chunk < 0x8000_0000,
            0 <= span <= 3276750,
    ;
    assert(0 <= local * tile_size <= 49 * 65535) by (nonlinear_arith)
        requires
            0 <= local < 50,
            0 <= tile_size <= 65535,
    ;
    chunk as i64 * span + local as i64 * tile_size as i64
}

/// Computes `tile_position` for a tile of a chunk.
pub fn locate_tile(chunk_pos: Vector2<i32>, tile_size: Vector2<u16>, local: Vector2<usize>) -> (at:
    Vector2<i64>)
    requires
        local.x < CHUNK_WIDTH,
        local.y < CHUNK_HEIGHT,
    ensures
        at == tile_position(chunk_pos, tile_size, local),
        -0x20_0000_0000_0000 < at.x < 0x20_0000_0000_0000,
        -0x20_0000_0000_0000 < at.y < 0x20_0000_0000_0000,
{
    Vector2 {
        x: tile_coordinate(chunk_pos.x, CHUNK_WIDTH, tile_size.x, local.x),
        y: tile_coordinate(chunk_pos.y, CHUNK_HEIGHT, tile_size.y, local.y),
    }
}

/// Assigns categories to positions: samples every registered noise at the
/// position and lets the registered rules compete on the values.
///
/// The noises come from `sampler`, a function from a noise field and a
/// position to the field's value there.
pub struct Generator<T, S> {
    noises: Vec<(GenerationParameter, NoiseField)>,
    generations: Vec<(T, TileGeneration)>,
    sampler: S,
}

impl<T, S: Fn(NoiseField, Vector2<i64>) -> i64> Generator<T, S> {
    /// The registered noises by name, in order of first registration.
    pub closed spec fn noise_list(&self) -> Seq<(Seq<char>, NoiseField)> {
        entries(self.noises@)
    }

    /// The registered noises as a map from their names.
    pub open spec fn noises(&self) -> Map<Seq<char>, NoiseField> {
        as_map(self.noise_list())
    }

    /// The registered categories with their rules, in order of registration.
    pub closed spec fn generations(&self) -> Seq<(T, TileGeneration)> {
        self.generations@
    }

    /// The function that evaluates the noises.
    pub closed spec fn sampler(&self) -> S {
        self.sampler
    }

    /// No noise name is registered twice, every noise is valid, every rule
    /// names registered noises only, and the sampler is a function.
    pub open spec fn wf(&self) -> bool {
        &&& distinct_names(self.noise_list())
        &&& forall|i: int|
            0 <= i < self.noise_list().len() ==> (#[trigger] self.noise_list()[i]).1.parameters.valid()
        &&& forall|r: int, p: int|
            0 <= r < self.generations().len() && 0 <= p < self.generations()[r].1@.len()
                ==> has_name(self.noise_list(), (#[trigger] self.generations()[r].1@[p]).0)
        &&& sampler_ok(self.sampler())
    }

    /// Every registered noise by name with its value at `position`.
    pub open spec fn sampled(&self, position: Vector2<i64>) -> Seq<(Seq<char>, i64)> {
        Seq::new(
            self.noise_list().len(),
            |i: int|
                (self.noise_list()[i].0, sample_of(self.sampler(), self.noise_list()[i].1, position)),
        )
    }

    /// The sampler has answered for every registered noise at `position`, and
    /// `sampled` holds its answers.
    pub open spec fn answered(&self, position: Vector2<i64>) -> bool {
        forall|i: int|
            0 <= i < self.noise_list().len() ==> call_ensures(
                self.sampler(),
                ((#[trigger] self.noise_list()[i]).1, position),
                sample_of(self.sampler(), self.noise_list()[i].1, position),
            )
    }

    /// The sampler has answered at every tile of chunk `chunk_pos`.
    pub open spec fn chunk_answered(
        &self,
        chunk_pos: Vector2<i32>,
        tile_size: Vector2<u16>,
    ) -> bool {
        forall|i: int|
            0 <= i < CHUNK_WIDTH * CHUNK_HEIGHT ==> self.answered(
                tile_position(
                    chunk_pos,
                    tile_size,
                    #[trigger] ChunkGeneration::<T, CHUNK_WIDTH, CHUNK_HEIGHT>::local_position(i),
                ),
            )
    }

    /// The category of the tile at `position`.
    pub open spec fn tile_at(&self, position: Vector2<i64>) -> Tile<T> {
        classification(self.generations(), as_map(self.sampled(position)))
    }

    /// The tiles of chunk `chunk_pos`, row by row.
    pub open spec fn chunk_at(&self, chunk_pos: Vector2<i32>, tile_size: Vector2<u16>) -> Seq<
        Tile<T>,
    > {
        Seq::new(
            (CHUNK_WIDTH * CHUNK_HEIGHT) as nat,
            |i: int|
                self.tile_at(
                    tile_position(
                        chunk_pos,
                        tile_size,
                        ChunkGeneration::<T, CHUNK_WIDTH, CHUNK_HEIGHT>::local_position(i),
                    ),
                ),
        )
    }

    /// A generator without noises or rules.
    pub fn new(sampler: S) -> (generator: Self)
        requires
            sampler_ok(sampler),
        ensures
            generator.wf(),
            generator.noise_list() == Seq::<(Seq<char>, NoiseField)>::empty(),
            generator.generations() == Seq::<(T, TileGeneration)>::empty(),
            generator.sampler() == sampler,
    {
        let generator = Self { noises: Vec::new(), generations: Vec::new(), sampler };
        assert(generator.noise_list() =~= Seq::empty());
        generator
    }

    /// Registers the noise `name`. A noise registered under that name before
    /// is replaced.
    pub fn add_noise(&mut self, name: &str, noise_seed: u32, noise_parameters: NoiseParameters)
        requires
            old(self).wf(),
            noise_parameters.valid(),
        ensures
            final(self).wf(),
            final(self).noise_list() == put(
                old(self).noise_list(),
                name@,
                NoiseField { seed: noise_seed, parameters: noise_parameters },
            ),
            final(self).noises() == old(self).noises().insert(
                name@,
                NoiseField { seed: noise_seed, parameters: noise_parameters },
            ),
            final(self).generations() == old(self).generations(),
            final(self).sampler() == old(self).sampler(),
    {
        let ghost before = self.noise_list();
        let ghost rules = self.generations();
        let noise = NoiseField { seed: noise_seed, parameters: noise_parameters };
        let name: String = name.to_owned();
        let ghost key = name@;
        match find(&self.noises, &name) {
            Some(i) => {
                proof {
                    lemma_first_unique(before, key, i as int);
                }
                self.noises.set(i, (name, noise));
            },
            None => {
                self.noises.push((name, noise));
            },
        }
        proof {
            assert(self.noise_list() =~= put(before, key, noise));
            lemma_put(before, key, noise);
            let after = self.noise_list();
            assert(self.generations() == rules);
            assert forall|i: int| 0 <= i < after.len() implies (#[trigger] after[i]).1.parameters.valid() by {
                if has_name(before, key) && i == crate::named::first_index(before, key) {
                } else {
                    assert(i < before.len() ==> after[i] == before[i]);
                }
            }
            assert forall|r: int, p: int|
                0 <= r < self.generations().len() && 0 <= p < self.generations()[r].1@.len()
                    implies has_name(after, (#[trigger] self.generations()[r].1@[p]).0) by {
                let wanted = rules[r].1@[p].0;
                assert(has_name(before, wanted));
                assert(as_map(before).contains_key(wanted));
                assert(as_map(after).contains_key(wanted));
            }
        }
    }

    /// Registers `generation` with its rule, after every rule registered so
    /// far. A rule that names more parameters than there are noises, or a
    /// parameter without a noise, is refused and nothing changes.
    pub fn add_generation(&mut self, generation: T, gen_parameters: TileGeneration) -> (result:
        Result<(), GenerationError>)
        requires
            old(self).wf(),
        ensures
            final(self).wf(),
            final(self).noise_list() == old(self).noise_list(),
            final(self).sampler() == old(self).sampler(),
            result is Ok <==> gen_parameters@.len() <= old(self).noise_list().len() && forall|
                p: int,
            |
                0 <= p < gen_parameters@.len() ==> has_name(
                    old(self).noise_list(),
                    (#[trigger] gen_parameters@[p]).0,
                ),
            result matches Err(GenerationError::TooManyParameters { .. }) <==> gen_parameters@.len()
                > old(self).noise_list().len(),
            match result {
                Ok(()) => {
                    &&& gen_parameters@.len() <= old(self).noise_list().len()
                    &&& forall|p: int|
                        0 <= p < gen_parameters@.len() ==> has_name(
                            old(self).noise_list(),
                            (#[trigger] gen_parameters@[p]).0,
                        )
                    &&& final(self).generations() == old(self).generations().push(
                        (generation, gen_parameters),
                    )
                },
                Err(GenerationError::TooManyParameters { parameters, noises }) => {
                    &&& parameters == gen_parameters@.len()
                    &&& noises == old(self).noise_list().len()
                    &&& parameters > noises
                    &&& final(self).generations() == old(self).generations()
                },
                Err(GenerationError::NoiseNotFound { name }) => {
                    &&& gen_parameters@.len() <= old(self).noise_list().len()
                    &&& final(self).generations() == old(self).generations()
                    &&& exists|p: int|
                        {
                            &&& 0 <= p < gen_parameters@.len()
                            &&& name@ == (#[trigger] gen_parameters@[p]).0
                            &&& !has_name(old(self).noise_list(), name@)
                            &&& forall|q: int|
                                0 <= q < p ==> has_name(
                                    old(self).noise_list(),
                                    (#[trigger] gen_parameters@[q]).0,
                                )
                        }
                },
            },
    {
        let parameters = gen_parameters.parameter_count();
        let noises = self.noises.len();
        if parameters > noises {
            return Err(GenerationError::TooManyParameters { parameters, noises });
        }
        let mut p: usize = 0;
        while p < parameters
            invariant
                *self == *old(self),
                self.wf(),
                parameters <= self.noise_list().len(),
                p <= parameters == gen_parameters@.len(),
                forall|q: int|
                    0 <= q < p ==> has_name(
                        entries(self.noises@),
                        (#[trigger] gen_parameters@[q]).0,
                    ),
            decreases parameters - p,
        {
            let name = gen_parameters.parameter_name(p);
            match find(&self.noises, name) {
                Some(i) => {
                    proof {
                        lemma_first_unique(entries(self.noises@), name@, i as int);
                    }
                },
                None => {
                    let name = name.clone();
                    assert(name@ == gen_parameters@[p as int].0);
                    return Err(GenerationError::NoiseNotFound { name });
                },
            }
            p += 1;
        }
        let ghost rules = self.generations();
        self.generations.push((generation, gen_parameters));
        proof {
            let after = self.generations();
            assert(after =~= rules.push((generation, gen_parameters)));
            assert forall|r: int, q: int|
                0 <= r < after.len() && 0 <= q < after[r].1@.len() implies has_name(
                self.noise_list(),
                (#[trigger] after[r].1@[q]).0,
            ) by {
                if r < rules.len() {
                    assert(after[r] == rules[r]);
                    assert(has_name(self.noise_list(), rules[r].1@[q].0));
                } else {
                    assert(after[r].1 == gen_parameters);
                    assert(has_name(self.noise_list(), gen_parameters@[q].0));
                }
            }
        }
        Ok(())
    }

    /// Number of registered noises.
    pub fn noise_count(&self) -> (n: usize)
        ensures
            n == self.noise_list().len(),
    {
        self.noises.len()
    }

    /// Number of registered rules.
    pub fn generation_count(&self) -> (n: usize)
        ensures
            n == self.generations().len(),
    {
        self.generations.len()
    }

    /// Evaluates every registered noise at `position`.
    pub fn sample_noises(&self, position: Vector2<i64>) -> (noise_values: Vec<
        (GenerationParameter, i64),
    >)
        requires
            self.wf(),
        ensures
            entries(noise_values@) == self.sampled(position),
            self.answered(position),
    {
        let mut noise_values: Vec<(GenerationParameter, i64)> = Vec::new();
        let mut i: usize = 0;
        while i < self.noises.len()
            invariant
                self.wf(),
                i <= self.noises@.len(),
                noise_values@.len() == i,
                forall|k: int|
                    0 <= k < i ==> (#[trigger] noise_values@[k]).0@ == self.noises@[k].0@
                        && noise_values@[k].1 == sample_of(
                        self.sampler,
                        self.noises@[k].1,
                        position,
                    ) && call_ensures(
                        self.sampler,
                        (self.noises@[k].1, position),
                        noise_values@[k].1,
                    ),
            decreases self.noises@.len() - i,
        {
            let noise = self.noises[i].1;
            assert(self.noise_list()[i as int].1 == noise);
            let value = (self.sampler)(noise, position);
            noise_values.push((self.noises[i].0.clone(), value));
            i += 1;
        }
        assert(entries(noise_values@) =~= self.sampled(position));
        assert forall|k: int| 0 <= k < self.noise_list().len() implies call_ensures(
            self.sampler(),
            ((#[trigger] self.noise_list()[k]).1, position),
            sample_of(self.sampler(), self.noise_list()[k].1, position),
        ) by {
            assert(noise_values@[k].1 == sample_of(self.sampler, self.noises@[k].1, position));
        }
        noise_values
    }
}

impl<T: Copy, S: Fn(NoiseField, Vector2<i64>) -> i64> Generator<T, S> {
    /// Lets the rules compete on noise values that were sampled already.
    pub fn classify(&self, noise_values: &Vec<(GenerationParameter, i64)>) -> (tile: Tile<T>)
        requires
            forall|r: int, p: int|
                0 <= r < self.generations().len() && 0 <= p < self.generations()[r].1@.len()
                    ==> has_name(
                    entries(noise_values@),
                    (#[trigger] self.generations()[r].1@[p]).0,
                ),
        ensures
            tile == classification(self.generations(), as_map(entries(noise_values@))),
    {
        let ghost rules = self.generations();
        let ghost values = as_map(entries(noise_values@));
        let mut best: Option<(usize, i128)> = None;
        let mut i: usize = 0;
        while i < self.generations.len()
            invariant
                i <= rules.len(),
                rules == self.generations@,
                values == as_map(entries(noise_values@)),
                forall|r: int, p: int|
                    0 <= r < rules.len() && 0 <= p < rules[r].1@.len() ==> has_name(
                        entries(noise_values@),
                        (#[trigger] rules[r].1@[p]).0,
                    ),
                match best {
                    Some((w, score)) => is_winner_among(rules, values, i as int, w as int)
                        && rules[w as int].1.score(values) == Some(score as int),
                    None => forall|k: int|
                        0 <= k < i ==> (#[trigger] rules[k]).1.score(values) is None,
                },
            decreases rules.len() - i,
        {
            let rule = &self.generations[i].1;
            assert forall|p: int| 0 <= p < rule@.len() implies has_name(
                entries(noise_values@),
                (#[trigger] rule@[p]).0,
            ) by {
                assert(rules[i as int].1@[p] == rule@[p]);
            }
            match rule.calculate_score(noise_values) {
                Some(score) => {
                    let better = match best {
                        Some((_, least)) => score < least,
                        None => true,
                    };
                    if better {
                        best = Some((i, score));
                    }
                },
                None => {},
            }
            i += 1;
        }
        match best {
            Some((w, _)) => {
                proof {
                    assert(is_winner(rules, values, w as int));
                    lemma_winner_unique(
                        rules,
                        values,
                        w as int,
                        choose|v: int| is_winner(rules, values, v),
                    );
                }
                Some(self.generations[w].0)
            },
            None => {
                assert forall|v: int| !is_winner(rules, values, v) by {
                    if 0 <= v < rules.len() {
                        assert(rules[v].1.score(values) is None);
                    }
                }
                None
            },
        }
    }

    /// Samples the noises at `position` and classifies the values.
    pub fn generate(&self, position: Vector2<i64>) -> (tile: Tile<T>)
        requires
            self.wf(),
        ensures
            tile == self.tile_at(position),
            self.answered(position),
    {
        let noise_values = self.sample_noises(position);
        proof {
            let sampled = self.sampled(position);
            assert forall|r: int, p: int|
                0 <= r < self.generations().len() && 0 <= p < self.generations()[r].1@.len()
                    implies has_name(sampled, (#[trigger] self.generations()[r].1@[p]).0) by {
                let wanted = self.generations()[r].1@[p].0;
                assert(has_name(self.noise_list(), wanted));
                let i = choose|i: int|
                    0 <= i < self.noise_list().len() && (#[trigger] self.noise_list()[i]).0
                        == wanted;
                assert(sampled[i].0 == wanted);
            }
        }
        self.classify(&noise_values)
    }

    /// Classifies every tile of chunk `chunk_pos`, row by row.
    pub fn generate_chunk(&self, chunk_pos: Vector2<i32>, tile_size: Vector2<u16>) -> (chunk:
        ChunkGeneration<T, CHUNK_WIDTH, CHUNK_HEIGHT>)
        requires
            self.wf(),
        ensures
            chunk@ == self.chunk_at(chunk_pos, tile_size),
            self.chunk_answered(chunk_pos, tile_size),
    {
        let mut generation: Vec<Tile<T>> = Vec::new();
        let mut y: usize = 0;
        while y < CHUNK_HEIGHT
            invariant
                self.wf(),
                y <= CHUNK_HEIGHT,
                generation@.len() == y * CHUNK_WIDTH,
                forall|i: int|
                    0 <= i < generation@.len() ==> #[trigger] generation@[i] == self.chunk_at(
                        chunk_pos,
                        tile_size,
                    )[i],
                forall|i: int|
                    0 <= i < generation@.len() ==> self.answered(
                        tile_position(
                            chunk_pos,
                            tile_size,
                            #[trigger] ChunkGeneration::<
                                T,
                                CHUNK_WIDTH,
                                CHUNK_HEIGHT,
                            >::local_position(i),
                        ),
                    ),
            decreases CHUNK_HEIGHT - y,
        {
            let mut x: usize = 0;
            while x < CHUNK_WIDTH
                invariant
                    self.wf(),
                    y < CHUNK_HEIGHT,
                    x <= CHUNK_WIDTH,
                    generation@.len() == y * CHUNK_WIDTH + x,
                    forall|i: int|
                        0 <= i < generation@.len() ==> #[trigger] generation@[i] == self.chunk_at(
                            chunk_pos,
                            tile_size,
                        )[i],
                    forall|i: int|
                        0 <= i < generation@.len() ==> self.answered(
                            tile_position(
                                chunk_pos,
                                tile_size,
                                #[trigger] ChunkGeneration::<
                                    T,
                                    CHUNK_WIDTH,
                                    CHUNK_HEIGHT,
                                >::local_position(i),
                            ),
                        ),
                decreases CHUNK_WIDTH - x,
            {
                let position = locate_tile(chunk_pos, tile_size, Vector2 { x, y });
                let ghost index = generation@.len() as int;
                assert(ChunkGeneration::<T, CHUNK_WIDTH, CHUNK_HEIGHT>::local_position(index)
                    == Vector2 { x, y });
                let tile = self.generate(position);
                generation.push(tile);
                x += 1;
            }
            y += 1;
        }
        assert(generation@ =~= self.chunk_at(chunk_pos, tile_size));
        ChunkGeneration::new(generation)
    }
}

} // verus!
