//! The launcher's logic: text handling, the fuzzy application search,
//! the usage history, `.desktop` entries, directory labels and the
//! keyboard-driven navigation between the three columns.

pub mod texto;
pub mod numero;
pub mod ordem;
pub mod aplicativo;
pub mod busca;
pub mod historico;
pub mod diretorio;
pub mod comando;
pub mod navegacao;
