//! A flashcard study library: cards with a front/back/hint display state,
//! ordered decks, a tabular-text loader, and a session manager that tracks
//! which cards have been seen and navigates between them.
pub mod card;
pub mod cards;
pub mod enums;
pub mod loader;
pub mod manager;
mod shuffle;
pub mod traits;

pub use card::Card;
pub use cards::Cards;
pub use enums::FlashCardState;
pub use loader::{Csv, ParseError};
pub use manager::{CardHandle, CardsManager};
pub use traits::{FlashCard, FlashCards, FlashCardsManager, FlipFlashCard, Loader};
