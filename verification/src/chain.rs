//! Chains of cells, and the weighted choice of their colour and fill.

use vstd::prelude::*;
use crate::grid::{Cell, Direction};
use rand::rngs::StdRng;
use crate::random::{choose_weighted_index, entropy_rng, weight_sum};

verus! {

/// A colour, as its red, green and blue parts.
pub type Color = (u8, u8, u8);

/// How the rectangle of a chain is filled.
#[derive(Clone, Copy, Debug, PartialEq, Eq, Structural)]
pub enum FillType {
    Dots,
    Triangles,
    Solid,
    Mesh,
    Empty,
}

/// Why a table of weights allows no choice.
#[derive(Clone, Copy, Debug, PartialEq, Eq, Structural)]
pub enum ChoiceError {
    /// The table is empty.
    NoItem,
    /// The weights add up to more than a weight can hold.
    InvalidWeight,
    /// Every weight is zero.
    AllWeightsZero,
}

/// A run of cells with the colour and the fill that were drawn for it.
pub struct Chain {
    pub cells: Vec<Cell>,
    pub color: Color,
    pub fill_type: FillType,
}

/// The number of places from `a` to `b`, both counted.
pub open spec fn span(a: int, b: int) -> int {
    if a <= b {
        b - a + 1
    } else {
        a - b + 1
    }
}

/// The smaller of `a` and `b`.
pub open spec fn lower(a: int, b: int) -> int {
    if a <= b {
        a
    } else {
        b
    }
}

/// The box of cells that a chain spans between its first and its last cell:
/// the column and the row where it begins, and how many columns and rows it
/// takes.
pub fn chain_extent(cells: &Vec<Cell>) -> (r: (i32, i32, i64, i64))
    requires
        cells@.len() > 0,
    ensures
        r.0 == lower(cells@.first().0 as int, cells@.last().0 as int),
        r.1 == lower(cells@.first().1 as int, cells@.last().1 as int),
        r.2 == span(cells@.first().0 as int, cells@.last().0 as int),
        r.3 == span(cells@.first().1 as int, cells@.last().1 as int),
{
    let first = cells[0];
    let last = cells[cells.len() - 1];
    let x: i32 = if first.0 <= last.0 { first.0 } else { last.0 };
    let y: i32 = if first.1 <= last.1 { first.1 } else { last.1 };
    let columns: i64 = if first.0 <= last.0 {
        last.0 as i64 - first.0 as i64 + 1
    } else {
        first.0 as i64 - last.0 as i64 + 1
    };
    let rows: i64 = if first.1 <= last.1 {
        last.1 as i64 - first.1 as i64 + 1
    } else {
        first.1 as i64 - last.1 as i64 + 1
    };
    (x, y, columns, rows)
}

/// What stands in the way of a choice from `weights`, if anything does.
pub open spec fn choice_error(weights: Seq<u32>) -> Option<ChoiceError> {
    if weights.len() == 0 {
        Some(ChoiceError::NoItem)
    } else if weight_sum(weights) > u32::MAX {
        Some(ChoiceError::InvalidWeight)
    } else if weight_sum(weights) == 0 {
        Some(ChoiceError::AllWeightsZero)
    } else {
        None
    }
}

/// The weights of a table, in its order.
pub open spec fn table_weights<T>(table: Seq<(T, u32)>) -> Seq<u32> {
    Seq::new(table.len(), |i: int| table[i].1)
}

/// An index into `weights`, drawn with a chance in proportion to its weight.
/// An entry of weight zero is never drawn.
pub fn pick_weighted(weights: &Vec<u32>, rng: &mut StdRng) -> (r: Result<usize, ChoiceError>)
    ensures
        match r {
            Ok(i) => choice_error(weights@).is_none() && i < weights@.len() && weights@[i as int]
                > 0,
            Err(e) => choice_error(weights@) == Some(e),
        },
{
    if weights.len() == 0 {
        return Err(ChoiceError::NoItem);
    }
    let mut total: u64 = 0;
    let mut k: usize = 0;
    while k < weights.len()
        invariant
            k <= weights@.len(),
            total <= u32::MAX,
            total == weight_sum(weights@.take(k as int)),
        decreases weights@.len() - k,
    {
        proof {
            assert(weights@.take(k + 1).drop_last() == weights@.take(k as int));
            lemma_weight_sum_grows(weights@, k + 1);
        }
        total = total + weights[k] as u64;
        if total > u32::MAX as u64 {
            return Err(ChoiceError::InvalidWeight);
        }
        k = k + 1;
    }
    proof {
        assert(weights@.take(k as int) == weights@);
    }
    if total == 0 {
        return Err(ChoiceError::AllWeightsZero);
    }
    match choose_weighted_index(weights, rng) {
        Some(i) => Ok(i),
        None => Err(ChoiceError::NoItem),
    }
}

/// The sum over a longer prefix is at least that over a shorter one.
pub proof fn lemma_weight_sum_grows(weights: Seq<u32>, k: int)
    requires
        0 <= k <= weights.len(),
    ensures
        0 <= weight_sum(weights.take(k)) <= weight_sum(weights),
    decreases weights.len() - k,
{
    lemma_weight_sum_nonnegative(weights.take(k));
    if k < weights.len() {
        lemma_weight_sum_grows(weights, k + 1);
        assert(weights.take(k + 1).drop_last() == weights.take(k));
    } else {
        assert(weights.take(k) == weights);
    }
}

/// No sum of weights is negative.
pub proof fn lemma_weight_sum_nonnegative(weights: Seq<u32>)
    ensures
        weight_sum(weights) >= 0,
    decreases weights.len(),
{
    if weights.len() > 0 {
        lemma_weight_sum_nonnegative(weights.drop_last());
    }
}

/// The weights of `table`, in its order.
pub fn weights_of<T>(table: &Vec<(T, u32)>) -> (weights: Vec<u32>)
    ensures
        weights@ == table_weights(table@),
{
    let mut weights: Vec<u32> = Vec::new();
    let mut k: usize = 0;
    while k < table.len()
        invariant
            k <= table@.len(),
            weights@.len() == k,
            forall|i: int| 0 <= i < k ==> weights@[i] == table@[i].1,
        decreases table@.len() - k,
    {
        weights.push(table[k].1);
        k = k + 1;
    }
    proof {
        assert(weights@ =~= table_weights(table@));
    }
    weights
}

/// The colours that a chain can get, each with its weight in hundredths.
pub open spec fn weighted_color_table() -> Seq<(Color, u32)> {
    seq![
        ((0x97u8, 0xBDu8, 0xC2u8), 5u32),
        ((0x45u8, 0x86u8, 0x8Fu8), 40u32),
        ((0xD7u8, 0xF5u8, 0xE8u8), 15u32),
        ((0xFAu8, 0x7Au8, 0x7Au8), 20u32),
        ((0xC2u8, 0x97u8, 0xACu8), 10u32),
        ((0x00u8, 0x00u8, 0x00u8), 10u32),
    ]
}

/// The fills that a chain can get, each with the same weight.
pub open spec fn weighted_fill_table() -> Seq<(FillType, u32)> {
    seq![
        (FillType::Dots, 20u32),
        (FillType::Triangles, 20u32),
        (FillType::Solid, 20u32),
        (FillType::Mesh, 20u32),
        (FillType::Empty, 20u32),
    ]
}

/// The four directions, each with the same weight.
pub open spec fn weighted_direction_table() -> Seq<(Direction, u32)> {
    seq![
        (Direction::UP, 25u32),
        (Direction::DOWN, 25u32),
        (Direction::LEFT, 25u32),
        (Direction::RIGHT, 25u32),
    ]
}

/// Whether the colour and the fill of `chain` stand in the library's tables.
pub open spec fn has_table_attributes(chain: Chain) -> bool {
    &&& exists|i: int|
        0 <= i < weighted_color_table().len() && chain.color
            == #[trigger] weighted_color_table()[i].0
    &&& exists|i: int|
        0 <= i < weighted_fill_table().len() && chain.fill_type
            == #[trigger] weighted_fill_table()[i].0
}

/// The colours that a chain can get, each with its weight in hundredths.
pub fn weighted_colors() -> (table: Vec<(Color, u32)>)
    ensures
        table@ == weighted_color_table(),
{
    let mut table: Vec<(Color, u32)> = Vec::new();
    table.push(((0x97, 0xBD, 0xC2), 5));
    table.push(((0x45, 0x86, 0x8F), 40));
    table.push(((0xD7, 0xF5, 0xE8), 15));
    table.push(((0xFA, 0x7A, 0x7A), 20));
    table.push(((0xC2, 0x97, 0xAC), 10));
    table.push(((0x00, 0x00, 0x00), 10));
    proof {
        assert(table@ =~= weighted_color_table());
    }
    table
}

/// The fills that a chain can get, each with the same weight.
pub fn weighted_fill_types() -> (table: Vec<(FillType, u32)>)
    ensures
        table@ == weighted_fill_table(),
{
    let mut table: Vec<(FillType, u32)> = Vec::new();
    table.push((FillType::Dots, 20));
    table.push((FillType::Triangles, 20));
    table.push((FillType::Solid, 20));
    table.push((FillType::Mesh, 20));
    table.push((FillType::Empty, 20));
    proof {
        assert(table@ =~= weighted_fill_table());
    }
    table
}

/// The four directions, each with the same weight.
pub fn weighted_directions() -> (table: Vec<(Direction, u32)>)
    ensures
        table@ == weighted_direction_table(),
{
    let mut table: Vec<(Direction, u32)> = Vec::new();
    table.push((Direction::UP, 25));
    table.push((Direction::DOWN, 25));
    table.push((Direction::LEFT, 25));
    table.push((Direction::RIGHT, 25));
    proof {
        assert(table@ =~= weighted_direction_table());
    }
    table
}

/// A table whose weights are all positive, and add up to at most the sum of
/// `bound` for each, allows a choice.
pub proof fn lemma_positive_table(weights: Seq<u32>, bound: int)
    requires
        weights.len() > 0,
        forall|i: int| 0 <= i < weights.len() ==> 0 < #[trigger] weights[i] && weights[i] <= bound,
    ensures
        0 < weight_sum(weights) <= weights.len() * bound,
    decreases weights.len(),
{
    if weights.len() > 1 {
        lemma_positive_table(weights.drop_last(), bound);
        assert((weights.len() - 1) * bound + bound == weights.len() * bound)
            by (nonlinear_arith);
    } else {
        assert(weight_sum(weights.drop_last()) == 0);
        assert(1 * bound == bound);
    }
}

/// A direction drawn at random, each of the four with the same chance. It
/// is an entry of the table of directions whose weight is positive.
pub fn random_direction() -> (d: Direction)
    ensures
        exists|i: int|
            0 <= i < weighted_direction_table().len() && weighted_direction_table()[i].1 > 0
                && d == #[trigger] weighted_direction_table()[i].0,
{
    let mut rng = entropy_rng();
    random_direction_with(&mut rng)
}

/// A direction drawn with the generator `rng`, each of the four with the
/// same chance. It is an entry of the table of directions whose weight is
/// positive.
pub fn random_direction_with(rng: &mut StdRng) -> (d: Direction)
    ensures
        exists|i: int|
            0 <= i < weighted_direction_table().len() && weighted_direction_table()[i].1 > 0
                && d == #[trigger] weighted_direction_table()[i].0,
{
    let table = weighted_directions();
    let weights = weights_of(&table);
    proof {
        lemma_positive_table(weights@, 25);
    }
    match pick_weighted(&weights, rng) {
        Ok(i) => {
            let drawn = direction_at(i);
            proof {
                assert(drawn.is_some());
            }
            match drawn {
                Some(d) => d,
                None => Direction::UP,
            }
        },
        Err(_) => {
            proof {
                assert(false);
            }
            Direction::UP
        },
    }
}

/// The direction that stands at place `index` of the table of directions;
/// none where the table ends before that place.
pub fn direction_at(index: usize) -> (d: Option<Direction>)
    ensures
        index < weighted_direction_table().len() ==> d == Some(
            weighted_direction_table()[index as int].0,
        ),
        index >= weighted_direction_table().len() ==> d.is_none(),
{
    match index {
        0 => Some(Direction::UP),
        1 => Some(Direction::DOWN),
        2 => Some(Direction::LEFT),
        3 => Some(Direction::RIGHT),
        _ => None,
    }
}

impl Chain {
    /// A chain of the given cells, colour and fill.
    pub fn new(cells: Vec<Cell>, color: Color, fill_type: FillType) -> (chain: Chain)
        ensures
            chain.cells == cells,
            chain.color == color,
            chain.fill_type == fill_type,
    {
        Chain { cells, color, fill_type }
    }

    /// A chain of the given cells, with a colour drawn from `colors` and a
    /// fill drawn from `fill_types`, each by its weight. The cells play no
    /// part in the draw. A table that allows no choice gives its error, that
    /// of the colours first.
    pub fn attribute(
        cells: Vec<Cell>,
        colors: &Vec<(Color, u32)>,
        fill_types: &Vec<(FillType, u32)>,
        rng: &mut StdRng,
    ) -> (r: Result<Chain, ChoiceError>)
        ensures
            match r {
                Ok(chain) => {
                    &&& choice_error(table_weights(colors@)).is_none()
                    &&& choice_error(table_weights(fill_types@)).is_none()
                    &&& chain.cells == cells
                    &&& exists|i: int|
                        0 <= i < colors@.len() && colors@[i].1 > 0 && chain.color
                            == #[trigger] colors@[i].0
                    &&& exists|i: int|
                        0 <= i < fill_types@.len() && fill_types@[i].1 > 0 && chain.fill_type
                            == #[trigger] fill_types@[i].0
                },
                Err(e) => if choice_error(table_weights(colors@)).is_some() {
                    choice_error(table_weights(colors@)) == Some(e)
                } else {
                    choice_error(table_weights(fill_types@)) == Some(e)
                },
            },
    {
        let color_weights = weights_of(colors);
        let fill_weights = weights_of(fill_types);
        match pick_weighted(&color_weights, rng) {
            Err(e) => Err(e),
            Ok(i) => match pick_weighted(&fill_weights, rng) {
                Err(e) => Err(e),
                Ok(j) => Ok(Chain::new(cells, colors[i].0, fill_types[j].0)),
            },
        }
    }

    /// A chain of the given cells, with a colour and a fill drawn from the
    /// library's own tables.
    pub fn from_cells(cells: Vec<Cell>) -> (chain: Chain)
        ensures
            chain.cells == cells,
            has_table_attributes(chain),
    {
        let mut rng = entropy_rng();
        Chain::from_cells_with(cells, &mut rng)
    }

    /// A chain of the given cells, with a colour and a fill drawn with the
    /// generator `rng` from the library's own tables.
    pub fn from_cells_with(cells: Vec<Cell>, rng: &mut StdRng) -> (chain: Chain)
        ensures
            chain.cells == cells,
            has_table_attributes(chain),
    {
        let colors = weighted_colors();
        let fill_types = weighted_fill_types();
        proof {
            lemma_positive_table(table_weights(colors@), 40);
            lemma_positive_table(table_weights(fill_types@), 20);
        }
        match Chain::attribute(cells, &colors, &fill_types, rng) {
            Ok(chain) => chain,
            Err(_) => {
                proof {
                    assert(false);
                }
                Chain::new(Vec::new(), (0, 0, 0), FillType::Empty)
            },
        }
    }
}

} // verus!
