//! A Go rules engine: stone groups, legal play with captures, suicide and
//! ko rules, a branching move history, and a game that replays it; with the
//! game-record format (a parenthesised tree of `;` nodes and `KEY[value]`
//! properties) that stores such a history.

pub mod action;
pub mod board;
pub mod coord;
pub mod game;
pub mod group;
pub mod markup;
pub mod record;
pub mod rules;
pub mod tool;
pub mod tree;
pub mod util;

pub use action::{to_actions, to_fragments, Action, PropFragment};
pub use board::{Board, Markup, Stone};
pub use coord::{
    coord_list, from_sgf_coord, is_list, points_list, points_pair_list, string_coords, to_sgf_coord, SgfError,
    SgfResult,
};
pub use game::{Game, GameBuilder};
pub use group::{find_group, Group};
pub use markup::MarkupState;
pub use record::{lex, parse, ParserToken, SgfNode, SgfTree};
pub use rules::{EndGame, Rules};
pub use tool::{ToolType, UiTool};
pub use tree::{Event, EventNode, EventTree};
pub use util::{calculate_hash, new_node, next_letter, star_points};
