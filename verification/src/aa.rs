//! The artificialanalysis.ai model records: their fields, how duplicate
//! records of one model are merged, and how the models leaderboard fills in
//! what the homepage leaves out.

use vstd::prelude::*;

use crate::metric::Metric;

verus! {

/// The creator of a model, as the homepage names and colours it.
#[derive(Debug, Clone)]
pub struct Creator {
    pub name: String,
    pub color: Option<String>,
}

/// Throughput figures of a model.
#[derive(Debug, Clone, Copy, PartialEq, Eq, Structural)]
pub struct Timescale {
    /// Median output speed, tokens per second.
    pub median_output_speed: Option<Metric>,
}

/// One model on the artificialanalysis.ai homepage.
#[derive(Debug, Clone)]
pub struct Model {
    pub id: String,
    pub slug: Option<String>,
    pub name: String,
    pub model_creators: Option<Creator>,
    pub intelligence_index: Option<Metric>,
    pub timescale: Option<Timescale>,
    /// Headline blended price at 7:2:1 cache:input:output, USD per 1M tokens.
    pub price_1m_blended: Option<Metric>,
    /// The same blend with no cache hits, 3:1 input:output, USD per 1M tokens.
    pub price_1m_blended_no_cache: Option<Metric>,
    pub price_1m_input_tokens: Option<Metric>,
    pub price_1m_output_tokens: Option<Metric>,
    pub cache_hit_price: Option<Metric>,
    /// Price per 1M tokens to write to the provider's prompt cache.
    pub cache_write_price: Option<Metric>,
    /// Share of the input price saved on cache hits (0.9 = 90% cheaper).
    pub cache_hit_discount: Option<Metric>,
    pub context_window_tokens: Option<u64>,
    pub release_date: Option<String>,
    pub is_open_weights: Option<bool>,
}

pub struct CreatorView {
    pub name: Seq<char>,
    pub color: Option<Seq<char>>,
}

/// A model record with its strings taken as character sequences.
pub struct ModelView {
    pub id: Seq<char>,
    pub slug: Option<Seq<char>>,
    pub name: Seq<char>,
    pub model_creators: Option<CreatorView>,
    pub intelligence_index: Option<Metric>,
    pub timescale: Option<Timescale>,
    pub price_1m_blended: Option<Metric>,
    pub price_1m_blended_no_cache: Option<Metric>,
    pub price_1m_input_tokens: Option<Metric>,
    pub price_1m_output_tokens: Option<Metric>,
    pub cache_hit_price: Option<Metric>,
    pub cache_write_price: Option<Metric>,
    pub cache_hit_discount: Option<Metric>,
    pub context_window_tokens: Option<u64>,
    pub release_date: Option<Seq<char>>,
    pub is_open_weights: Option<bool>,
}

pub open spec fn opt_str(o: Option<String>) -> Option<Seq<char>> {
    match o {
        Some(s) => Some(s@),
        None => None,
    }
}

impl View for Creator {
    type V = CreatorView;

    open spec fn view(&self) -> CreatorView {
        CreatorView { name: self.name@, color: opt_str(self.color) }
    }
}

pub open spec fn opt_creator(o: Option<Creator>) -> Option<CreatorView> {
    match o {
        Some(c) => Some(c@),
        None => None,
    }
}

impl View for Model {
    type V = ModelView;

    open spec fn view(&self) -> ModelView {
        ModelView {
            id: self.id@,
            slug: opt_str(self.slug),
            name: self.name@,
            model_creators: opt_creator(self.model_creators),
            intelligence_index: self.intelligence_index,
            timescale: self.timescale,
            price_1m_blended: self.price_1m_blended,
            price_1m_blended_no_cache: self.price_1m_blended_no_cache,
            price_1m_input_tokens: self.price_1m_input_tokens,
            price_1m_output_tokens: self.price_1m_output_tokens,
            cache_hit_price: self.cache_hit_price,
            cache_write_price: self.cache_write_price,
            cache_hit_discount: self.cache_hit_discount,
            context_window_tokens: self.context_window_tokens,
            release_date: opt_str(self.release_date),
            is_open_weights: self.is_open_weights,
        }
    }
}

/// `a` when it holds a value, else `b`.
pub open spec fn or_else<T>(a: Option<T>, b: Option<T>) -> Option<T> {
    if a is Some {
        a
    } else {
        b
    }
}

/// A record completed from a second record of the same model: every field
/// the first record lacks is taken from the second. Id and name stay.
pub open spec fn merged(a: ModelView, b: ModelView) -> ModelView {
    ModelView {
        id: a.id,
        slug: or_else(a.slug, b.slug),
        name: a.name,
        model_creators: or_else(a.model_creators, b.model_creators),
        intelligence_index: or_else(a.intelligence_index, b.intelligence_index),
        timescale: or_else(a.timescale, b.timescale),
        price_1m_blended: or_else(a.price_1m_blended, b.price_1m_blended),
        price_1m_blended_no_cache: or_else(a.price_1m_blended_no_cache, b.price_1m_blended_no_cache),
        price_1m_input_tokens: or_else(a.price_1m_input_tokens, b.price_1m_input_tokens),
        price_1m_output_tokens: or_else(a.price_1m_output_tokens, b.price_1m_output_tokens),
        cache_hit_price: or_else(a.cache_hit_price, b.cache_hit_price),
        cache_write_price: or_else(a.cache_write_price, b.cache_write_price),
        cache_hit_discount: or_else(a.cache_hit_discount, b.cache_hit_discount),
        context_window_tokens: or_else(a.context_window_tokens, b.context_window_tokens),
        release_date: or_else(a.release_date, b.release_date),
        is_open_weights: or_else(a.is_open_weights, b.is_open_weights),
    }
}

/// The provider a model is credited to, `?` when none is named.
pub open spec fn spec_provider(m: ModelView) -> Seq<char> {
    match m.model_creators {
        Some(c) => c.name,
        None => "?"@,
    }
}

/// The slug of a model, or its id when it has none.
pub open spec fn spec_display_id(m: ModelView) -> Seq<char> {
    match m.slug {
        Some(s) => s,
        None => m.id,
    }
}

pub fn clone_opt_string(o: &Option<String>) -> (r: Option<String>)
    ensures
        opt_str(r) == opt_str(*o),
{
    match o {
        Some(s) => Some(s.clone()),
        None => None,
    }
}

pub fn clone_opt_creator(o: &Option<Creator>) -> (r: Option<Creator>)
    ensures
        opt_creator(r) == opt_creator(*o),
{
    match o {
        Some(c) => Some(Creator { name: c.name.clone(), color: clone_opt_string(&c.color) }),
        None => None,
    }
}

impl Model {
    /// The provider's name, `?` when the record names none.
    pub fn provider(&self) -> (r: &str)
        ensures
            r@ == spec_provider(self@),
    {
        match &self.model_creators {
            Some(c) => c.name.as_str(),
            None => "?",
        }
    }

    /// The colour the homepage gives the provider, if any.
    pub fn provider_color(&self) -> (r: Option<&str>)
        ensures
            match self.model_creators {
                Some(c) => match c.color {
                    Some(col) => r is Some && r->0@ == col@,
                    None => r is None,
                },
                None => r is None,
            },
    {
        match &self.model_creators {
            Some(c) => match &c.color {
                Some(col) => Some(col.as_str()),
                None => None,
            },
            None => None,
        }
    }

    /// Median output speed, tokens per second.
    pub fn speed(&self) -> (r: Option<Metric>)
        ensures
            r == spec_speed(self@),
    {
        match self.timescale {
            Some(t) => t.median_output_speed,
            None => None,
        }
    }

    /// The human-readable identifier (slug), or the id when there is none.
    pub fn display_id(&self) -> (r: &str)
        ensures
            r@ == spec_display_id(self@),
    {
        match &self.slug {
            Some(s) => s.as_str(),
            None => self.id.as_str(),
        }
    }

    /// Completes this record from `other`, a second record of the same
    /// model: whatever this one lacks is taken from `other`.
    pub fn merge_missing(&mut self, other: &Self)
        ensures
            final(self)@ == merged(old(self)@, other@),
    {
        if self.slug.is_none() {
            self.slug = clone_opt_string(&other.slug);
        }
        if self.model_creators.is_none() {
            self.model_creators = clone_opt_creator(&other.model_creators);
        }
        if self.intelligence_index.is_none() {
            self.intelligence_index = other.intelligence_index;
        }
        if self.timescale.is_none() {
            self.timescale = other.timescale;
        }
        if self.price_1m_blended.is_none() {
            self.price_1m_blended = other.price_1m_blended;
        }
        if self.price_1m_blended_no_cache.is_none() {
            self.price_1m_blended_no_cache = other.price_1m_blended_no_cache;
        }
        if self.price_1m_input_tokens.is_none() {
            self.price_1m_input_tokens = other.price_1m_input_tokens;
        }
        if self.price_1m_output_tokens.is_none() {
            self.price_1m_output_tokens = other.price_1m_output_tokens;
        }
        if self.cache_hit_price.is_none() {
            self.cache_hit_price = other.cache_hit_price;
        }
        if self.cache_write_price.is_none() {
            self.cache_write_price = other.cache_write_price;
        }
        if self.cache_hit_discount.is_none() {
            self.cache_hit_discount = other.cache_hit_discount;
        }
        if self.context_window_tokens.is_none() {
            self.context_window_tokens = other.context_window_tokens;
        }
        if self.release_date.is_none() {
            self.release_date = clone_opt_string(&other.release_date);
        }
        if self.is_open_weights.is_none() {
            self.is_open_weights = other.is_open_weights;
        }
    }
}

pub open spec fn spec_speed(m: ModelView) -> Option<Metric> {
    match m.timescale {
        Some(t) => t.median_output_speed,
        None => None,
    }
}


/// Why a page yielded nothing usable.
#[derive(Debug, Clone, Copy, PartialEq, Eq, Structural)]
pub enum AaError {
    /// No model record on the homepage parsed with a non-empty id.
    NoModelRecords,
    /// No row of the models leaderboard parsed with a slug.
    NoLeaderboardRows,
}

pub open spec fn opt_model(o: Option<Model>) -> Option<ModelView> {
    match o {
        Some(m) => Some(m@),
        None => None,
    }
}

/// Whether one of `acc` has the id `id`.
pub open spec fn has_id(acc: Seq<ModelView>, id: Seq<char>) -> bool {
    exists|i: int| 0 <= i < acc.len() && #[trigger] acc[i].id == id
}

/// One parsed record added to the models gathered so far: a record that
/// failed to parse or has an empty id is skipped, a record of a model
/// already gathered completes it, any other record is a new model.
pub open spec fn absorb(acc: Seq<ModelView>, rec: Option<ModelView>) -> Seq<ModelView> {
    match rec {
        None => acc,
        Some(m) => if m.id.len() == 0 {
            acc
        } else if has_id(acc, m.id) {
            let i = choose|i: int| 0 <= i < acc.len() && #[trigger] acc[i].id == m.id;
            acc.update(i, merged(acc[i], m))
        } else {
            acc.push(m)
        },
    }
}

/// The models that the parsed records `recs` describe, in the order in
/// which each model first appears.
pub open spec fn gathered(recs: Seq<Option<ModelView>>) -> Seq<ModelView>
    decreases recs.len(),
{
    if recs.len() == 0 {
        Seq::empty()
    } else {
        absorb(gathered(recs.drop_last()), recs.last())
    }
}

/// How many of `recs` failed to parse.
pub open spec fn failures(recs: Seq<Option<ModelView>>) -> nat
    decreases recs.len(),
{
    if recs.len() == 0 {
        0
    } else {
        failures(recs.drop_last()) + if recs.last() is None { 1nat } else { 0nat }
    }
}

/// No two of `ms` share an id, and none has an empty id.
pub open spec fn ids_distinct(ms: Seq<ModelView>) -> bool {
    &&& forall|i: int, j: int| 0 <= i < j < ms.len() ==> #[trigger] ms[i].id != #[trigger] ms[j].id
    &&& forall|i: int| 0 <= i < ms.len() ==> (#[trigger] ms[i]).id.len() > 0
}

pub open spec fn views_of(ms: Seq<Model>) -> Seq<ModelView> {
    ms.map_values(|m: Model| m@)
}

/// What the homepage's model records come to.
pub struct Gathered {
    /// One model per id, in order of first appearance.
    pub models: Vec<Model>,
    /// How many records failed to parse.
    pub parse_failures: usize,
}

/// Gathers the homepage's model records, given in page order, each `None`
/// where the record failed to parse: records that share an id are merged
/// into the first of them.
pub fn gather_models(records: Vec<Option<Model>>) -> (g: Gathered)
    ensures
        views_of(g.models@) == gathered(records@.map_values(|o: Option<Model>| opt_model(o))),
        g.parse_failures == failures(records@.map_values(|o: Option<Model>| opt_model(o))),
        ids_distinct(views_of(g.models@)),
{
    let ghost recs = records@.map_values(|o: Option<Model>| opt_model(o));
    let n = records.len();
    let mut records = records;
    let mut out: Vec<Model> = Vec::new();
    let mut fails: usize = 0;
    let mut i: usize = 0;
    while i < n
        invariant
            0 <= i <= n,
            n == recs.len(),
            records@.len() == n - i,
            forall|k: int| 0 <= k < n - i ==> opt_model(#[trigger] records@[k]) == recs[i + k],
            views_of(out@) == gathered(recs.take(i as int)),
            fails == failures(recs.take(i as int)),
            fails <= i,
            ids_distinct(views_of(out@)),
        decreases n - i,
    {
        let ghost acc = views_of(out@);
        let ghost pre = recs.take(i as int);
        assert(recs.take(i + 1).drop_last() == pre);
        assert(recs.take(i + 1).last() == recs[i as int]);
        assert(opt_model(records@[0]) == recs[i as int]);
        let rec = records.remove(0);
        match rec {
            None => {
                fails = fails + 1;
            },
            Some(m) => {
                if m.id.as_str().is_empty() {
                } else {
                    assert(m@.id.len() > 0);
                    let pos = find_id(&out, &m.id);
                    if let Some(k) = pos {
                        assert(acc[k as int].id == m@.id);
                        assert(has_id(acc, m@.id));
                        let ghost ch = choose|t: int| 0 <= t < acc.len() && #[trigger] acc[t].id == m@.id;
                        assert(ch == k);
                        out[k].merge_missing(&m);
                        assert(views_of(out@) =~= acc.update(k as int, merged(acc[k as int], m@)));
                    } else {
                        assert(!has_id(acc, m@.id));
                        assert forall|t: int| 0 <= t < acc.len() implies #[trigger] acc[t].id != m@.id by {
                            assert(acc[t].id == out@[t].id@);
                        }
                        out.push(m);
                        assert(views_of(out@) =~= acc.push(m@));
                    }
                }
            },
        }
        assert forall|k: int| 0 <= k < n - i - 1 implies opt_model(#[trigger] records@[k]) == recs[i + 1 + k] by {
        }
        i = i + 1;
    }
    assert(recs.take(n as int) == recs);
    Gathered { models: out, parse_failures: fails }
}

/// The position of the model with id `id` in `ms`, if any.
fn find_id(ms: &Vec<Model>, id: &String) -> (r: Option<usize>)
    ensures
        match r {
            Some(k) => k < ms@.len() && ms@[k as int].id@ == id@,
            None => forall|t: int| 0 <= t < ms@.len() ==> (#[trigger] ms@[t]).id@ != id@,
        },
{
    let mut k: usize = 0;
    while k < ms.len()
        invariant
            0 <= k <= ms@.len(),
            forall|t: int| 0 <= t < k ==> (#[trigger] ms@[t]).id@ != id@,
        decreases ms@.len() - k,
    {
        if ms[k].id == *id {
            return Some(k);
        }
        k = k + 1;
    }
    None
}

impl Gathered {
    /// The gathered models, or an error when there are none.
    pub fn into_models(self) -> (r: Result<Vec<Model>, AaError>)
        ensures
            self.models@.len() == 0 ==> r == Err::<Vec<Model>, AaError>(AaError::NoModelRecords),
            self.models@.len() > 0 ==> r == Ok::<Vec<Model>, AaError>(self.models),
    {
        if self.models.len() == 0 {
            Err(AaError::NoModelRecords)
        } else {
            Ok(self.models)
        }
    }
}

/// The models that the homepage's records describe, given in page order
/// with `None` where a record failed to parse, and how many failed: an
/// error exactly when no record parsed with a non-empty id.
pub fn models_from_records(records: Vec<Option<Model>>) -> (r: (Result<Vec<Model>, AaError>, usize))
    ensures
        r.1 == failures(records@.map_values(|o: Option<Model>| opt_model(o))),
        match r.0 {
            Ok(ms) => views_of(ms@) == gathered(records@.map_values(|o: Option<Model>| opt_model(o))),
            Err(e) => e == AaError::NoModelRecords,
        },
        r.0 is Err <==> forall|j: int|
            0 <= j < records@.len() ==> !((#[trigger] records@[j]) matches Some(m) && m.id@.len() > 0),
{
    let ghost recs = records@.map_values(|o: Option<Model>| opt_model(o));
    let ghost orig = records@;
    let g = gather_models(records);
    proof {
        crate::laws::law_no_models_exactly_when_no_record_has_an_id(recs);
        assert forall|j: int| 0 <= j < orig.len() implies ((#[trigger] orig[j]) matches Some(m) && m.id@.len()
            > 0) == (recs[j] matches Some(m) && m.id.len() > 0) by {
            assert(recs[j] == opt_model(orig[j]));
        }
        if exists|j: int| 0 <= j < orig.len() && ((#[trigger] orig[j]) matches Some(m) && m.id@.len() > 0) {
            let j = choose|j: int| 0 <= j < orig.len() && ((#[trigger] orig[j]) matches Some(m) && m.id@.len() > 0);
            assert(recs[j] matches Some(m) && m.id.len() > 0);
        }
        if exists|j: int| 0 <= j < recs.len() && ((#[trigger] recs[j]) matches Some(m) && m.id.len() > 0) {
            let j = choose|j: int| 0 <= j < recs.len() && ((#[trigger] recs[j]) matches Some(m) && m.id.len() > 0);
            assert(orig[j] matches Some(m) && m.id@.len() > 0);
        }
    }
    let fails = g.parse_failures;
    (g.into_models(), fails)
}

/// A row of the models leaderboard: the fields the homepage lacks.
#[derive(Debug, Clone)]
pub struct LeaderboardRow {
    pub slug: Option<String>,
    pub context_window_tokens: Option<u64>,
    pub cache_write_price: Option<Metric>,
}

/// The extras the leaderboard publishes for one slug.
#[derive(Debug, Clone, Copy, PartialEq, Eq, Structural)]
pub struct Extras {
    pub context_window_tokens: Option<u64>,
    pub cache_write_price: Option<Metric>,
}

pub open spec fn extras_of(r: LeaderboardRow) -> Extras {
    Extras {
        context_window_tokens: r.context_window_tokens,
        cache_write_price: r.cache_write_price,
    }
}

/// The extras of the parsed leaderboard rows `entries` (`None` where a row
/// failed to parse), keyed by slug; a later row of a slug replaces an
/// earlier one, and rows without a slug are dropped.
pub open spec fn extras_map(entries: Seq<Option<LeaderboardRow>>) -> Map<Seq<char>, Extras>
    decreases entries.len(),
{
    if entries.len() == 0 {
        Map::empty()
    } else {
        let m = extras_map(entries.drop_last());
        match entries.last() {
            Some(r) => match r.slug {
                Some(s) => m.insert(s@, extras_of(r)),
                None => m,
            },
            None => m,
        }
    }
}

/// The models leaderboard, keyed by slug.
pub struct Leaderboard {
    rows: Vec<LeaderboardRow>,
    map: Ghost<Map<Seq<char>, Extras>>,
}

impl View for Leaderboard {
    type V = Map<Seq<char>, Extras>;

    closed spec fn view(&self) -> Map<Seq<char>, Extras> {
        self.map@
    }
}

impl Leaderboard {
    /// The rows hold one row per slug, and each row's extras are what the
    /// map gives its slug.
    pub closed spec fn wf(&self) -> bool {
        &&& forall|i: int| 0 <= i < self.rows@.len() ==> (#[trigger] self.rows@[i]).slug is Some
        &&& forall|i: int, j: int|
            0 <= i < j < self.rows@.len() ==> (#[trigger] self.rows@[i]).slug->0@
                != (#[trigger] self.rows@[j]).slug->0@
        &&& forall|i: int|
            0 <= i < self.rows@.len() ==> self.map@.contains_key((#[trigger] self.rows@[i]).slug->0@)
                && self.map@[self.rows@[i].slug->0@] == extras_of(self.rows@[i])
        &&& forall|s: Seq<char>|
            #[trigger] self.map@.contains_key(s) ==> exists|i: int|
                0 <= i < self.rows@.len() && (#[trigger] self.rows@[i]).slug->0@ == s
    }

    /// How many slugs the leaderboard knows.
    pub fn len(&self) -> (n: usize)
        requires
            self.wf(),
        ensures
            n == self@.dom().len(),
    {
        proof {
            self.lemma_dom_len();
        }
        self.rows.len()
    }

    proof fn lemma_dom_len(&self)
        requires
            self.wf(),
        ensures
            self@.dom().finite(),
            self@.dom().len() == self.rows@.len(),
    {
        let slugs = Seq::new(self.rows@.len(), |i: int| self.rows@[i].slug->0@);
        assert(slugs.no_duplicates());
        assert(self@.dom() =~= slugs.to_set()) by {
            assert forall|s: Seq<char>| self@.dom().contains(s) implies slugs.to_set().contains(s) by {
                let i = choose|i: int| 0 <= i < self.rows@.len() && (#[trigger] self.rows@[i]).slug->0@ == s;
                assert(slugs[i] == s);
            }
            assert forall|s: Seq<char>| slugs.to_set().contains(s) implies self@.dom().contains(s) by {
                let i = choose|i: int| 0 <= i < slugs.len() && slugs[i] == s;
                assert(self.map@.contains_key(self.rows@[i].slug->0@));
            }
        }
        slugs.unique_seq_to_set();
    }

    /// The position of the row of `slug`, if any.
    fn find(&self, slug: &String) -> (r: Option<usize>)
        requires
            self.wf(),
        ensures
            match r {
                Some(k) => k < self.rows@.len() && self.rows@[k as int].slug->0@ == slug@,
                None => forall|t: int| 0 <= t < self.rows@.len() ==> (#[trigger] self.rows@[t]).slug->0@ != slug@,
            },
    {
        let mut k: usize = 0;
        while k < self.rows.len()
            invariant
                self.wf(),
                0 <= k <= self.rows@.len(),
                forall|t: int| 0 <= t < k ==> (#[trigger] self.rows@[t]).slug->0@ != slug@,
            decreases self.rows@.len() - k,
        {
            match &self.rows[k].slug {
                Some(t) => {
                    if *t == *slug {
                        return Some(k);
                    }
                },
                None => {},
            }
            k = k + 1;
        }
        None
    }

    /// The extras published for `slug`, if any.
    pub fn get(&self, slug: &String) -> (r: Option<Extras>)
        requires
            self.wf(),
        ensures
            self@.contains_key(slug@) ==> r == Some(self@[slug@]),
            !self@.contains_key(slug@) ==> r is None,
    {
        let mut i: usize = 0;
        while i < self.rows.len()
            invariant
                self.wf(),
                0 <= i <= self.rows@.len(),
                forall|k: int| 0 <= k < i ==> (#[trigger] self.rows@[k]).slug->0@ != slug@,
            decreases self.rows@.len() - i,
        {
            let row = &self.rows[i];
            match &row.slug {
                Some(s) => {
                    if *s == *slug {
                        return Some(
                            Extras {
                                context_window_tokens: row.context_window_tokens,
                                cache_write_price: row.cache_write_price,
                            },
                        );
                    }
                },
                None => {},
            }
            i = i + 1;
        }
        proof {
            if self@.contains_key(slug@) {
                let k = choose|k: int| 0 <= k < self.rows@.len() && (#[trigger] self.rows@[k]).slug->0@ == slug@;
                assert(self.rows@[k].slug->0@ == slug@);
            }
        }
        None
    }
}

/// Gathers the leaderboard's rows, given in page order, each `None` where
/// the row failed to parse; an error when no row has a slug.
pub fn gather_leaderboard(entries: Vec<Option<LeaderboardRow>>) -> (r: Result<Leaderboard, AaError>)
    ensures
        match r {
            Ok(lb) => lb.wf() && lb@ == extras_map(entries@) && lb@.dom().len() > 0,
            Err(e) => e == AaError::NoLeaderboardRows && extras_map(entries@).dom().len() == 0,
        },
{
    let ghost es = entries@;
    let n = entries.len();
    let mut entries = entries;
    let mut lb = Leaderboard { rows: Vec::new(), map: Ghost(Map::empty()) };
    let mut i: usize = 0;
    while i < n
        invariant
            0 <= i <= n,
            n == es.len(),
            entries@.len() == n - i,
            forall|k: int| 0 <= k < n - i ==> #[trigger] entries@[k] == es[i + k],
            lb.wf(),
            lb@ == extras_map(es.take(i as int)),
        decreases n - i,
    {
        assert(es.take(i + 1).drop_last() == es.take(i as int));
        assert(es.take(i + 1).last() == es[i as int]);
        let e = entries.remove(0);
        match e {
            Some(row) => {
                match &row.slug {
                    Some(s) => {
                        let pos = lb.find(s);
                        let ghost new_map = lb.map@.insert(s@, extras_of(row));
                        if let Some(k) = pos {
                            let ghost old_rows = lb.rows@;
                            lb.rows.set(k, row);
                            lb.map = Ghost(new_map);
                            assert forall|s2: Seq<char>| #[trigger] lb.map@.contains_key(s2) implies exists|j: int|
                                0 <= j < lb.rows@.len() && (#[trigger] lb.rows@[j]).slug->0@ == s2 by {
                                if s2 != s@ {
                                    let j = choose|j: int| 0 <= j < old_rows.len() && (#[trigger] old_rows[j]).slug->0@ == s2;
                                    assert(lb.rows@[j] == old_rows[j]);
                                } else {
                                    assert(lb.rows@[k as int].slug->0@ == s2);
                                }
                            }
                        } else {
                            let ghost old_rows = lb.rows@;
                            lb.rows.push(row);
                            lb.map = Ghost(new_map);
                            assert forall|s2: Seq<char>| #[trigger] lb.map@.contains_key(s2) implies exists|j: int|
                                0 <= j < lb.rows@.len() && (#[trigger] lb.rows@[j]).slug->0@ == s2 by {
                                if s2 != s@ {
                                    let j = choose|j: int| 0 <= j < old_rows.len() && (#[trigger] old_rows[j]).slug->0@ == s2;
                                    assert(lb.rows@[j] == old_rows[j]);
                                } else {
                                    assert(lb.rows@[old_rows.len() as int].slug->0@ == s2);
                                }
                            }
                        }
                    },
                    None => {},
                }
            },
            None => {},
        }
        assert forall|k: int| 0 <= k < n - i - 1 implies #[trigger] entries@[k] == es[i + 1 + k] by {}
        i = i + 1;
    }
    assert(es.take(n as int) == es);
    let count = lb.len();
    if count == 0 {
        Err(AaError::NoLeaderboardRows)
    } else {
        Ok(lb)
    }
}

/// A model with the leaderboard's extras filled in where the model lacks
/// them; a model without a slug on the leaderboard stays as it is.
pub open spec fn filled(m: ModelView, lb: Map<Seq<char>, Extras>) -> ModelView {
    match m.slug {
        Some(s) => if lb.contains_key(s) {
            ModelView {
                context_window_tokens: or_else(m.context_window_tokens, lb[s].context_window_tokens),
                cache_write_price: or_else(m.cache_write_price, lb[s].cache_write_price),
                ..m
            }
        } else {
            m
        },
        None => m,
    }
}

/// Fills in, for each model whose slug the leaderboard knows, the context
/// window and cache-write price the model lacks.
pub fn apply_leaderboard(models: &mut Vec<Model>, rows: &Leaderboard)
    requires
        rows.wf(),
    ensures
        final(models)@.len() == old(models)@.len(),
        forall|k: int| 0 <= k < old(models)@.len() ==> #[trigger] final(models)@[k]@ == filled(old(models)@[k]@, rows@),
{
    let ghost m0 = models@;
    let mut i: usize = 0;
    while i < models.len()
        invariant
            rows.wf(),
            0 <= i <= models@.len(),
            models@.len() == m0.len(),
            forall|k: int| 0 <= k < i ==> #[trigger] models@[k]@ == filled(m0[k]@, rows@),
            forall|k: int| i <= k < models@.len() ==> #[trigger] models@[k] == m0[k],
        decreases models@.len() - i,
    {
        let extras = match &models[i].slug {
            Some(s) => rows.get(s),
            None => None,
        };
        match extras {
            Some(x) => {
                if models[i].context_window_tokens.is_none() {
                    models[i].context_window_tokens = x.context_window_tokens;
                }
                if models[i].cache_write_price.is_none() {
                    models[i].cache_write_price = x.cache_write_price;
                }
            },
            None => {},
        }
        assert(models@[i as int]@ == filled(m0[i as int]@, rows@));
        i = i + 1;
    }
}

} // verus!
