//! Game rules shared by the host simulation and the single-player game:
//! the difficulty table, the pseudo-random generator and the weather roll.
use vstd::prelude::*;
use crate::world::{Theme, Weather};

verus! {

/// Difficulty level, 1 ..= 10 when made by `Diff::new`.
#[derive(Clone, Copy, PartialEq, Eq, Structural, Debug)]
pub struct Diff {
    pub level: i32,
}

pub open spec fn clamp_level(level: i32) -> i32 {
    if level < 1 {
        1
    } else if level > 10 {
        10
    } else {
        level
    }
}

/// The tier that a level belongs to.
pub open spec fn tier_name(level: i32) -> Seq<char> {
    if level == 1 || level == 2 {
        "Casual"@
    } else if level == 3 || level == 4 {
        "Easy"@
    } else if level == 5 || level == 6 {
        "Normal"@
    } else if level == 7 || level == 8 {
        "Hard"@
    } else {
        "Nightmare"@
    }
}

/// The tiers by level: 1-2 Casual, 3-4 Easy, 5-6 Normal, 7-8 Hard, 9-10
/// Nightmare (and Nightmare for any other level).
pub proof fn lemma_tier_names(level: i32)
    ensures
        (level == 1 || level == 2) ==> tier_name(level) == "Casual"@,
        (level == 3 || level == 4) ==> tier_name(level) == "Easy"@,
        (level == 5 || level == 6) ==> tier_name(level) == "Normal"@,
        (level == 7 || level == 8) ==> tier_name(level) == "Hard"@,
        (level < 1 || level > 8) ==> tier_name(level) == "Nightmare"@,
{
}

impl Diff {
    /// A difficulty of the given level, brought into 1 ..= 10.
    pub fn new(level: i32) -> (d: Self)
        ensures
            d.level == clamp_level(level),
            1 <= d.level <= 10,
            1 <= level <= 10 ==> d.level == level,
            level < 1 ==> d.level == 1,
            level > 10 ==> d.level == 10,
    {
        let l = if level < 1 {
            1
        } else if level > 10 {
            10
        } else {
            level
        };
        Diff { level: l }
    }

    /// The name of the difficulty's tier.
    pub fn name(self) -> (s: &'static str)
        ensures
            s@ == tier_name(self.level),
    {
        match self.level {
            1 | 2 => "Casual",
            3 | 4 => "Easy",
            5 | 6 => "Normal",
            7 | 8 => "Hard",
            _ => "Nightmare",
        }
    }

    /// How many enemies a round at this difficulty brings.
    pub open spec fn enemies(self) -> int {
        4 + self.level
    }

    /// The hit points each enemy of this difficulty has.
    pub open spec fn hit_points(self) -> int {
        60 + 14 * self.level
    }

    /// Number of enemies in a round: four more than the level.
    pub fn enemy_count(self) -> (n: usize)
        requires
            self.level <= i32::MAX - 4,
        ensures
            n == self.enemies() as usize,
            n == (4 + self.level) as usize,
    {
        (4 + self.level) as usize
    }

    /// Hit points of each enemy: 60 plus 14 per level.
    pub fn enemy_hp(self) -> (hp: i64)
        ensures
            hp == self.hit_points(),
            hp == 60 + 14 * self.level,
    {
        60 + 14 * (self.level as i64)
    }
}

/// On the levels `Diff::new` produces, a harder level never brings fewer or
/// weaker enemies, and each level brings 5 ..= 14 enemies of 74 ..= 200 hit
/// points.
pub proof fn lemma_difficulty_scales(a: Diff, b: Diff)
    requires
        1 <= a.level <= b.level <= 10,
    ensures
        5 <= a.enemies() <= b.enemies() <= 14,
        74 <= a.hit_points() <= b.hit_points() <= 200,
{
}

// ---------------------------------------------------------------------------
// pseudo-random numbers
// ---------------------------------------------------------------------------

pub open spec fn lcg_step(state: u64) -> u64 {
    vstd::wrapping::u64_specs::wrapping_add(
        vstd::wrapping::u64_specs::wrapping_mul(state, 6364136223846793005),
        1442695040888963407,
    )
}

/// One step of the 64-bit linear congruential generator.
pub fn lcg_next(state: u64) -> (next: u64)
    ensures
        next == lcg_step(state),
{
    state.wrapping_mul(6364136223846793005).wrapping_add(1442695040888963407)
}

// ---------------------------------------------------------------------------
// weather
// ---------------------------------------------------------------------------

/// The weather that a roll `n` in 0 ..= 99 stands for: 45% clear, 27% rain,
/// 8% snow, 20% fog.
pub open spec fn weather_roll(n: int) -> Weather {
    if n < 45 {
        Weather::Clear
    } else if n < 72 {
        Weather::Rain
    } else if n < 80 {
        Weather::Snow
    } else {
        Weather::Fog
    }
}

/// Only the valley and the frozen peaks have snow; elsewhere it turns to fog.
pub open spec fn theme_weather(w: Weather, t: Theme) -> Weather {
    match t {
        Theme::Frozen | Theme::Valley => w,
        _ => if w == Weather::Snow {
            Weather::Fog
        } else {
            w
        },
    }
}

/// The weather that the roll `n` brings to a world of theme `theme`.
pub fn pick_weather(n: u64, theme: Theme) -> (w: Weather)
    ensures
        w == theme_weather(weather_roll(n as int), theme),
        n < 45 ==> w == Weather::Clear,
        45 <= n < 72 ==> w == Weather::Rain,
        72 <= n < 80 ==> w == if theme == Theme::Frozen || theme == Theme::Valley {
            Weather::Snow
        } else {
            Weather::Fog
        },
        80 <= n ==> w == Weather::Fog,
{
    let w = if n < 45 {
        Weather::Clear
    } else if n < 72 {
        Weather::Rain
    } else if n < 80 {
        Weather::Snow
    } else {
        Weather::Fog
    };
    match theme {
        Theme::Frozen | Theme::Valley => w,
        _ => {
            match w {
                Weather::Snow => Weather::Fog,
                _ => w,
            }
        },
    }
}

/// The roll's bands: below 45 clear, then rain up to 72, snow up to 80, fog
/// above; and a world's theme changes nothing but snow, which becomes fog
/// outside the valley and the frozen peaks. So every theme, the forest
/// included, gets clear weather on a roll below 45.
pub proof fn lemma_weather_bands(n: int, w: Weather, t: Theme)
    ensures
        n < 45 ==> weather_roll(n) == Weather::Clear,
        45 <= n < 72 ==> weather_roll(n) == Weather::Rain,
        72 <= n < 80 ==> weather_roll(n) == Weather::Snow,
        80 <= n ==> weather_roll(n) == Weather::Fog,
        w != Weather::Snow ==> theme_weather(w, t) == w,
        (t == Theme::Frozen || t == Theme::Valley) ==> theme_weather(w, t) == w,
        (t != Theme::Frozen && t != Theme::Valley) ==> theme_weather(Weather::Snow, t)
            == Weather::Fog,
        n < 45 ==> theme_weather(weather_roll(n), t) == Weather::Clear,
{
}

/// It never snows outside the valley and the frozen peaks.
pub proof fn lemma_snow_only_in_cold_worlds(n: int, t: Theme)
    requires
        theme_weather(weather_roll(n), t) == Weather::Snow,
    ensures
        t == Theme::Frozen || t == Theme::Valley,
{
}

// ---------------------------------------------------------------------------
// movement keys and kills
// ---------------------------------------------------------------------------

/// Bits of the movement key mask a client sends.
pub const K_W: u16 = 1;

pub const K_A: u16 = 2;

pub const K_S: u16 = 4;

pub const K_D: u16 = 8;

/// Points a kill is worth.
pub const KILL_SCORE: u32 = 100;

/// Sum of a sequence of counts.
pub open spec fn total_of(s: Seq<u32>) -> int
    decreases s.len(),
{
    if s.len() == 0 {
        0
    } else {
        total_of(s.drop_last()) + s.last()
    }
}

/// How many enemies are down.
pub open spec fn down_count(alive: Seq<bool>) -> int
    decreases alive.len(),
{
    if alive.len() == 0 {
        0
    } else {
        down_count(alive.drop_last()) + if alive.last() {
            0int
        } else {
            1int
        }
    }
}

/// A round's bookkeeping as contracts see it: the enemies the round counts,
/// which placed enemies are alive, each player's kills and score, the enemies
/// left and whether the round is complete.
pub struct RoundView {
    pub total: u32,
    pub alive: Seq<bool>,
    pub kills: Seq<u32>,
    pub scores: Seq<u32>,
    pub remaining: u32,
    pub complete: bool,
}

/// What holds of a round at every moment: no more enemies are placed than it
/// counts; each player scores 100 per kill; the enemies left are those
/// counted less those down; the round is complete exactly when none are left
/// (of a round that counts some).
pub open spec fn round_ok(r: RoundView) -> bool {
    &&& r.alive.len() <= r.total
    &&& r.kills.len() == r.scores.len()
    &&& forall|i: int| 0 <= i < r.kills.len() ==> #[trigger] r.scores[i] == KILL_SCORE * r.kills[i]
    &&& total_of(r.kills) == down_count(r.alive)
    &&& r.remaining == r.total - down_count(r.alive)
    &&& r.complete == (r.remaining == 0 && r.total > 0)
}

proof fn lemma_total_push(s: Seq<u32>, v: u32)
    ensures
        total_of(s.push(v)) == total_of(s) + v,
{
    assert(s.push(v).drop_last() =~= s);
}

proof fn lemma_total_update(s: Seq<u32>, i: int, v: u32)
    requires
        0 <= i < s.len(),
    ensures
        total_of(s.update(i, v)) == total_of(s) - s[i] + v,
    decreases s.len(),
{
    let u = s.update(i, v);
    if i == s.len() - 1 {
        assert(u.drop_last() =~= s.drop_last());
    } else {
        lemma_total_update(s.drop_last(), i, v);
        assert(u.drop_last() =~= s.drop_last().update(i, v));
    }
}

proof fn lemma_down_push(s: Seq<bool>)
    ensures
        down_count(s.push(true)) == down_count(s),
{
    assert(s.push(true).drop_last() =~= s);
}

proof fn lemma_down_bounds(s: Seq<bool>)
    ensures
        0 <= down_count(s) <= s.len(),
    decreases s.len(),
{
    if s.len() > 0 {
        lemma_down_bounds(s.drop_last());
    }
}

proof fn lemma_down_update(s: Seq<bool>, i: int)
    requires
        0 <= i < s.len(),
        s[i],
    ensures
        down_count(s.update(i, false)) == down_count(s) + 1,
    decreases s.len(),
{
    let u = s.update(i, false);
    if i == s.len() - 1 {
        assert(u.drop_last() =~= s.drop_last());
    } else {
        lemma_down_update(s.drop_last(), i);
        assert(u.drop_last() =~= s.drop_last().update(i, false));
    }
}

proof fn lemma_scores_total(kills: Seq<u32>, scores: Seq<u32>)
    requires
        kills.len() == scores.len(),
        forall|i: int| 0 <= i < kills.len() ==> #[trigger] scores[i] == KILL_SCORE * kills[i],
    ensures
        total_of(scores) == KILL_SCORE * total_of(kills),
    decreases kills.len(),
{
    if kills.len() > 0 {
        let (k, c) = (kills.drop_last(), scores.drop_last());
        assert forall|i: int| 0 <= i < k.len() implies #[trigger] c[i] == KILL_SCORE * k[i] by {
            assert(c[i] == scores[i] && k[i] == kills[i]);
        }
        lemma_scores_total(k, c);
        assert(scores.last() == KILL_SCORE * kills.last());
    }
}

/// The bookkeeping of a round, at every moment: the kills of all players add
/// up to the enemies down, their scores to 100 per enemy down, the enemies
/// left are those the round counts less those down, and the round is complete
/// exactly when none are left.
pub proof fn lemma_round_books(r: RoundView)
    requires
        round_ok(r),
    ensures
        total_of(r.kills) == down_count(r.alive),
        total_of(r.scores) == KILL_SCORE * down_count(r.alive),
        r.remaining == r.total - down_count(r.alive),
        r.total > 0 ==> (r.complete <==> r.remaining == 0),
{
    lemma_scores_total(r.kills, r.scores);
}

/// The bookkeeping of a round: which enemies are alive, what each player has
/// killed and scored, how many enemies are left and whether the round is
/// complete.
pub struct Round {
    total: u32,
    alive: Vec<bool>,
    kills: Vec<u32>,
    scores: Vec<u32>,
    remaining: u32,
    complete: bool,
}

impl View for Round {
    type V = RoundView;

    closed spec fn view(&self) -> RoundView {
        RoundView {
            total: self.total,
            alive: self.alive@,
            kills: self.kills@,
            scores: self.scores@,
            remaining: self.remaining,
            complete: self.complete,
        }
    }
}

impl Round {
    #[verifier::type_invariant]
    spec fn inv(self) -> bool {
        round_ok(self@)
    }

    /// A round that counts `total` enemies, none placed yet and no player.
    pub fn new(total: u32) -> (r: Self)
        ensures
            r@ == (RoundView {
                total,
                alive: Seq::empty(),
                kills: Seq::empty(),
                scores: Seq::empty(),
                remaining: total,
                complete: false,
            }),
    {
        let r = Round {
            total,
            alive: Vec::new(),
            kills: Vec::new(),
            scores: Vec::new(),
            remaining: total,
            complete: false,
        };
        proof {
            assert(r.alive@ =~= Seq::<bool>::empty());
            assert(r.kills@ =~= Seq::<u32>::empty());
            assert(r.scores@ =~= Seq::<u32>::empty());
        }
        r
    }

    /// Places one more enemy, alive, while fewer than the round counts are
    /// placed; gives its index.
    pub fn add_enemy(&mut self) -> (i: usize)
        requires
            old(self)@.alive.len() < old(self)@.total,
        ensures
            i == old(self)@.alive.len(),
            final(self)@ == (RoundView { alive: old(self)@.alive.push(true), ..old(self)@ }),
    {
        proof {
            use_type_invariant(&*self);
            lemma_down_push(self.alive@);
        }
        let mut r = Round::new(0);
        std::mem::swap(&mut r, self);
        let Round { total, mut alive, kills, scores, remaining, complete } = r;
        let i = alive.len();
        alive.push(true);
        *self = Round { total, alive, kills, scores, remaining, complete };
        i
    }

    /// Adds a player with no kill and no score; gives its index.
    pub fn add_player(&mut self) -> (i: usize)
        ensures
            i == old(self)@.kills.len(),
            final(self)@ == (RoundView {
                kills: old(self)@.kills.push(0),
                scores: old(self)@.scores.push(0),
                ..old(self)@
            }),
    {
        proof {
            use_type_invariant(&*self);
            lemma_total_push(self.kills@, 0);
        }
        let mut r = Round::new(0);
        std::mem::swap(&mut r, self);
        let Round { total, alive, mut kills, mut scores, remaining, complete } = r;
        let i = kills.len();
        kills.push(0);
        scores.push(0);
        *self = Round { total, alive, kills, scores, remaining, complete };
        i
    }

    /// Books the kill of the living enemy `enemy` by player `shooter`: the
    /// enemy is down, the shooter gains a kill and 100 points, one enemy fewer
    /// is left, and the round is complete once none are.
    pub fn record_kill(&mut self, shooter: usize, enemy: usize)
        requires
            shooter < old(self)@.kills.len(),
            enemy < old(self)@.alive.len(),
            old(self)@.alive[enemy as int],
            old(self)@.scores[shooter as int] <= u32::MAX - KILL_SCORE,
        ensures
            final(self)@ == (RoundView {
                alive: old(self)@.alive.update(enemy as int, false),
                kills: old(self)@.kills.update(
                    shooter as int,
                    (old(self)@.kills[shooter as int] + 1) as u32,
                ),
                scores: old(self)@.scores.update(
                    shooter as int,
                    (old(self)@.scores[shooter as int] + KILL_SCORE) as u32,
                ),
                remaining: (old(self)@.remaining - 1) as u32,
                complete: old(self)@.remaining == 1,
                ..old(self)@
            }),
            old(self)@.remaining > 0,
    {
        proof {
            use_type_invariant(&*self);
            lemma_down_update(self.alive@, enemy as int);
            lemma_down_bounds(self.alive@.update(enemy as int, false));
            assert(self.scores@[shooter as int] == KILL_SCORE * self.kills@[shooter as int]);
        }
        let mut r = Round::new(0);
        std::mem::swap(&mut r, self);
        let Round { total, mut alive, mut kills, mut scores, remaining, complete: _ } = r;
        let k = kills[shooter] + 1;
        let sc = scores[shooter] + KILL_SCORE;
        proof {
            lemma_total_update(kills@, shooter as int, k);
        }
        alive.set(enemy, false);
        kills.set(shooter, k);
        scores.set(shooter, sc);
        let left = remaining - 1;
        let r2 = Round { total, alive, kills, scores, remaining: left, complete: left == 0 };
        proof {
            let v = r2@;
            assert forall|i: int| 0 <= i < v.kills.len() implies #[trigger] v.scores[i]
                == KILL_SCORE * v.kills[i] by {
                if i != shooter {
                    assert(v.scores[i] == old(self)@.scores[i]);
                    assert(v.kills[i] == old(self)@.kills[i]);
                }
            }
        }
        *self = r2;
    }

    /// Enemies left.
    pub fn remaining(&self) -> (n: u32)
        ensures
            n == self@.remaining,
    {
        self.remaining
    }

    /// Whether every enemy the round counts is down.
    pub fn complete(&self) -> (c: bool)
        ensures
            c == self@.complete,
    {
        self.complete
    }

    /// Whether enemy `i` is alive.
    pub fn alive(&self, i: usize) -> (a: bool)
        requires
            i < self@.alive.len(),
        ensures
            a == self@.alive[i as int],
    {
        self.alive[i]
    }

    /// Player `i`'s kills.
    pub fn kills(&self, i: usize) -> (k: u32)
        requires
            i < self@.kills.len(),
        ensures
            k == self@.kills[i as int],
    {
        self.kills[i]
    }

    /// Player `i`'s score.
    pub fn score(&self, i: usize) -> (s: u32)
        requires
            i < self@.kills.len(),
        ensures
            s == self@.scores[i as int],
    {
        proof {
            use_type_invariant(self);
        }
        self.scores[i]
    }

    /// Number of players.
    pub fn players(&self) -> (n: usize)
        ensures
            n == self@.kills.len(),
    {
        self.kills.len()
    }

    /// Number of enemies placed.
    pub fn enemies(&self) -> (n: usize)
        ensures
            n == self@.alive.len(),
    {
        self.alive.len()
    }

    /// How many enemies the round counts.
    pub fn total(&self) -> (n: u32)
        ensures
            n == self@.total,
    {
        self.total
    }
}

} // verus!
