//! Dialog state for loading and saving games and for promotion choice.
//! Rendering and file access stay with the caller: the load dialog is
//! handed its file list and only filters and scrolls it.

use vstd::prelude::*;

use crate::pgn::is_substring;
use crate::pgn::lower_of;
use crate::pieces::PieceType;
use crate::strutil::chars_to_string;
use crate::strutil::str_to_chars;

verus! {

/// Whether a filename matches a search query: the empty query matches
/// everything, otherwise a case-insensitive substring match.
pub open spec fn matches_query(f: Seq<char>, q: Seq<char>) -> bool {
    q.len() == 0 || is_substring(lower_of(f), lower_of(q))
}

/// The files matching the query, scanning from index `i` on.
pub open spec fn filter_from(files: Seq<String>, q: Seq<char>, i: int) -> Seq<String>
    decreases files.len() - i,
{
    if i < 0 || i >= files.len() {
        Seq::empty()
    } else {
        (if matches_query(files[i]@, q) {
            seq![files[i]]
        } else {
            Seq::empty()
        }) + filter_from(files, q, i + 1)
    }
}

/// The selection clamped into the filtered list.
pub open spec fn clamp_sel(sel: int, len: int) -> int {
    if sel >= len {
        if len == 0 {
            0
        } else {
            len - 1
        }
    } else {
        sel
    }
}

/// The scroll offset that keeps the selection among the eight visible
/// rows.
pub open spec fn adjust_spec(scroll: int, sel: int) -> int {
    if sel < scroll {
        sel
    } else if sel >= scroll + 8 {
        sel - 7
    } else {
        scroll
    }
}

/// A modal dialog for loading saved games.
pub struct LoadGameModal {
    pub files: Vec<String>,
    pub filtered_files: Vec<String>,
    pub selected_index: usize,
    pub search_query: Vec<char>,
    pub scroll_offset: usize,
}

impl LoadGameModal {
    /// Well-formedness: the filtered list is exactly the filter of the
    /// file list, and the selection stays inside it.
    pub open spec fn wf(self) -> bool {
        &&& self.filtered_files@ == filter_from(self.files@, self.search_query@, 0)
        &&& self.filtered_files@.len() > 0 ==> self.selected_index
            < self.filtered_files@.len()
        &&& self.filtered_files@.len() == 0 ==> self.selected_index == 0
    }

    /// A dialog with no files yet; the caller supplies the listing through
    /// `refresh`.
    pub fn new() -> (r: Self)
        ensures
            r.wf(),
            r.files@ == Seq::<String>::empty(),
            r.search_query@ == Seq::<char>::empty(),
            r.selected_index == 0,
            r.scroll_offset == 0,
    {
        let r = LoadGameModal {
            files: Vec::new(),
            filtered_files: Vec::new(),
            selected_index: 0,
            search_query: Vec::new(),
            scroll_offset: 0,
        };
        proof {
            assert(r.filtered_files@ =~= filter_from(r.files@, r.search_query@, 0));
        }
        r
    }

    /// Rebuilds the filtered list and re-clamps selection and scroll.
    fn update_filtered_files(&mut self)
        ensures
            final(self).files@ == old(self).files@,
            final(self).search_query@ == old(self).search_query@,
            final(self).filtered_files@ == filter_from(
                old(self).files@,
                old(self).search_query@,
                0,
            ),
            final(self).selected_index == clamp_sel(
                old(self).selected_index as int,
                final(self).filtered_files@.len() as int,
            ),
            final(self).scroll_offset == adjust_spec(0, final(self).selected_index as int),
            final(self).wf(),
    {
        let q = chars_to_string(&self.search_query);
        let mut filtered: Vec<String> = Vec::new();
        let n = self.files.len();
        let mut i: usize = 0;
        while i < n
            invariant
                n == self.files@.len(),
                i <= n,
                q@ == self.search_query@,
                filter_from(self.files@, self.search_query@, 0) == filtered@ + filter_from(
                    self.files@,
                    self.search_query@,
                    i as int,
                ),
            decreases n - i,
        {
            let ghost pre = filtered@;
            if crate::pgn::fuzzy_match(self.files[i].as_str(), q.as_str()) {
                filtered.push(self.files[i].clone());
                proof {
                    assert(pre + (seq![self.files@[i as int]] + filter_from(
                        self.files@,
                        self.search_query@,
                        i + 1,
                    )) =~= filtered@ + filter_from(self.files@, self.search_query@, i + 1));
                }
            }
            i = i + 1;
        }
        proof {
            assert(filter_from(self.files@, self.search_query@, n as int) =~= Seq::<
                String,
            >::empty());
            assert(filtered@ + Seq::<String>::empty() =~= filtered@);
        }
        self.filtered_files = filtered;
        if self.selected_index >= self.filtered_files.len() {
            let len = self.filtered_files.len();
            self.selected_index = if len == 0 {
                0
            } else {
                len - 1
            };
        }
        self.scroll_offset = 0;
        self.adjust_scroll();
    }

    /// Keeps the selected row among the eight visible ones.
    fn adjust_scroll(&mut self)
        ensures
            *final(self) == (LoadGameModal {
                scroll_offset: adjust_spec(
                    old(self).scroll_offset as int,
                    old(self).selected_index as int,
                ) as usize,
                ..*old(self)
            }),
    {
        if self.selected_index < self.scroll_offset {
            self.scroll_offset = self.selected_index;
        } else if self.selected_index - self.scroll_offset >= 8 {
            self.scroll_offset = self.selected_index - 7;
        }
    }

    /// Replaces the file listing; the caller reads the directory.
    pub fn refresh(&mut self, files: Vec<String>)
        ensures
            final(self).files@ == files@,
            final(self).search_query@ == old(self).search_query@,
            final(self).wf(),
    {
        self.files = files;
        self.update_filtered_files();
    }

    /// The currently selected filename, if any.
    pub fn selected_file(&self) -> (r: Option<&str>)
        ensures
            match r {
                Some(f) => self.filtered_files@.len() > 0 && self.selected_index
                    < self.filtered_files@.len() && f@ == self.filtered_files@[self.selected_index as int]@,
                None => self.selected_index >= self.filtered_files@.len(),
            },
    {
        if self.selected_index < self.filtered_files.len() {
            Some(self.filtered_files[self.selected_index].as_str())
        } else {
            None
        }
    }

    /// Move selection up, wrapping to the bottom.
    pub fn prev(&mut self)
        requires
            old(self).wf(),
        ensures
            final(self).wf(),
            final(self).files@ == old(self).files@,
            final(self).filtered_files@ == old(self).filtered_files@,
            old(self).filtered_files@.len() > 0 ==> final(self).selected_index as int == (if old(
                self,
            ).selected_index > 0 {
                old(self).selected_index - 1
            } else {
                old(self).filtered_files@.len() - 1
            }),
            old(self).filtered_files@.len() == 0 ==> *final(self) == *old(self),
    {
        if self.filtered_files.len() > 0 {
            if self.selected_index > 0 {
                self.selected_index = self.selected_index - 1;
            } else {
                self.selected_index = self.filtered_files.len() - 1;
            }
            self.adjust_scroll();
        }
    }

    /// Move selection down, wrapping to the top.
    pub fn next(&mut self)
        requires
            old(self).wf(),
        ensures
            final(self).wf(),
            final(self).files@ == old(self).files@,
            final(self).filtered_files@ == old(self).filtered_files@,
            old(self).filtered_files@.len() > 0 ==> final(self).selected_index as int == (old(
                self,
            ).selected_index + 1) % (old(self).filtered_files@.len() as int),
            old(self).filtered_files@.len() == 0 ==> *final(self) == *old(self),
    {
        if self.filtered_files.len() > 0 {
            self.selected_index = (self.selected_index + 1) % self.filtered_files.len();
            self.adjust_scroll();
        }
    }

    /// Add a character to the search query.
    pub fn add_char(&mut self, c: char)
        ensures
            final(self).files@ == old(self).files@,
            final(self).search_query@ == old(self).search_query@.push(c),
            final(self).wf(),
    {
        self.search_query.push(c);
        self.update_filtered_files();
    }

    /// Remove the last character from the search query.
    pub fn backspace(&mut self)
        ensures
            final(self).files@ == old(self).files@,
            final(self).search_query@ == (if old(self).search_query@.len() > 0 {
                old(self).search_query@.drop_last()
            } else {
                old(self).search_query@
            }),
            final(self).wf(),
    {
        if self.search_query.len() > 0 {
            self.search_query.pop();
        }
        self.update_filtered_files();
    }
}

/// Which input field of the save dialog is active.
#[derive(Debug, Clone, Copy, PartialEq, Eq, Structural)]
pub enum SaveModalField {
    White,
    Black,
}

/// A modal dialog for saving games with player names; each field starts
/// with a placeholder that the first keystroke clears.
pub struct SaveGameModal {
    pub white: Vec<char>,
    pub black: Vec<char>,
    pub active_field: SaveModalField,
    pub white_is_default: bool,
    pub black_is_default: bool,
}

impl SaveGameModal {
    /// A save dialog with placeholder names.
    pub fn new() -> (r: Self)
        ensures
            r.white@ == seq!['P', 'l', 'a', 'y', 'e', 'r', ' ', '1'],
            r.black@ == seq!['P', 'l', 'a', 'y', 'e', 'r', ' ', '2'],
            r.active_field == SaveModalField::White,
            r.white_is_default,
            r.black_is_default,
    {
        let white: Vec<char> = vec!['P', 'l', 'a', 'y', 'e', 'r', ' ', '1'];
        let black: Vec<char> = vec!['P', 'l', 'a', 'y', 'e', 'r', ' ', '2'];
        SaveGameModal {
            white,
            black,
            active_field: SaveModalField::White,
            white_is_default: true,
            black_is_default: true,
        }
    }

    /// A save dialog with the names pre-filled, as when re-saving a loaded
    /// game.
    pub fn new_with_names(white: &str, black: &str) -> (r: Self)
        ensures
            r.white@ == white@,
            r.black@ == black@,
            r.active_field == SaveModalField::White,
            !r.white_is_default,
            !r.black_is_default,
    {
        SaveGameModal {
            white: str_to_chars(white),
            black: str_to_chars(black),
            active_field: SaveModalField::White,
            white_is_default: false,
            black_is_default: false,
        }
    }

    /// The White player name.
    pub fn white_name(&self) -> (r: String)
        ensures
            r@ == self.white@,
    {
        chars_to_string(&self.white)
    }

    /// The Black player name.
    pub fn black_name(&self) -> (r: String)
        ensures
            r@ == self.black@,
    {
        chars_to_string(&self.black)
    }

    /// Switch to the other input field.
    pub fn next_field(&mut self)
        ensures
            *final(self) == (SaveGameModal {
                active_field: if old(self).active_field == SaveModalField::White {
                    SaveModalField::Black
                } else {
                    SaveModalField::White
                },
                ..*old(self)
            }),
    {
        self.active_field = match self.active_field {
            SaveModalField::White => SaveModalField::Black,
            SaveModalField::Black => SaveModalField::White,
        };
    }

    /// Add a character to the active field, clearing a placeholder first.
    pub fn add_char(&mut self, c: char)
        ensures
            final(self).active_field == old(self).active_field,
            old(self).active_field == SaveModalField::White ==> {
                &&& final(self).black@ == old(self).black@
                &&& final(self).black_is_default == old(self).black_is_default
                &&& !final(self).white_is_default
                &&& final(self).white@ == (if old(self).white_is_default {
                    seq![c]
                } else {
                    old(self).white@.push(c)
                })
            },
            old(self).active_field == SaveModalField::Black ==> {
                &&& final(self).white@ == old(self).white@
                &&& final(self).white_is_default == old(self).white_is_default
                &&& !final(self).black_is_default
                &&& final(self).black@ == (if old(self).black_is_default {
                    seq![c]
                } else {
                    old(self).black@.push(c)
                })
            },
    {
        match self.active_field {
            SaveModalField::White => {
                if self.white_is_default {
                    self.white = Vec::new();
                    self.white_is_default = false;
                }
                self.white.push(c);
            },
            SaveModalField::Black => {
                if self.black_is_default {
                    self.black = Vec::new();
                    self.black_is_default = false;
                }
                self.black.push(c);
            },
        }
    }

    /// Remove the last character from the active field; the first
    /// backspace on a placeholder clears it whole.
    pub fn backspace(&mut self)
        ensures
            old(self).active_field == SaveModalField::White ==> final(self).black@ == old(
                self,
            ).black@ && !final(self).white_is_default && final(self).white@ == (if old(
                self,
            ).white_is_default {
                Seq::<char>::empty()
            } else if old(self).white@.len() > 0 {
                old(self).white@.drop_last()
            } else {
                old(self).white@
            }),
            old(self).active_field == SaveModalField::Black ==> final(self).white@ == old(
                self,
            ).white@ && !final(self).black_is_default && final(self).black@ == (if old(
                self,
            ).black_is_default {
                Seq::<char>::empty()
            } else if old(self).black@.len() > 0 {
                old(self).black@.drop_last()
            } else {
                old(self).black@
            }),
    {
        match self.active_field {
            SaveModalField::White => {
                if self.white_is_default {
                    self.white = Vec::new();
                    self.white_is_default = false;
                } else {
                    if self.white.len() > 0 {
                        self.white.pop();
                    }
                    self.white_is_default = false;
                }
            },
            SaveModalField::Black => {
                if self.black_is_default {
                    self.black = Vec::new();
                    self.black_is_default = false;
                } else {
                    if self.black.len() > 0 {
                        self.black.pop();
                    }
                    self.black_is_default = false;
                }
            },
        }
    }
}

/// A modal dialog for choosing the promotion piece: queen, rook, bishop,
/// knight, in that order.
pub struct PromotionModal {
    pub selected_index: usize,
    pub use_unicode: bool,
}

/// The promotion choice at a dial position.
pub open spec fn choice_at(i: int) -> PieceType {
    if i == 0 {
        PieceType::Queen
    } else if i == 1 {
        PieceType::Rook
    } else if i == 2 {
        PieceType::Bishop
    } else {
        PieceType::Knight
    }
}

impl PromotionModal {
    pub fn new(use_unicode: bool) -> (r: Self)
        ensures
            r.selected_index == 0,
            r.use_unicode == use_unicode,
    {
        PromotionModal { selected_index: 0, use_unicode }
    }

    /// Move selection to the next option, wrapping around.
    pub fn next(&mut self)
        requires
            old(self).selected_index < 4,
        ensures
            final(self).selected_index == (old(self).selected_index + 1) % 4,
            final(self).use_unicode == old(self).use_unicode,
    {
        self.selected_index = (self.selected_index + 1) % 4;
    }

    /// The piece currently selected.
    pub fn selected_choice(&self) -> (r: PieceType)
        ensures
            r == choice_at(self.selected_index as int),
    {
        if self.selected_index == 0 {
            PieceType::Queen
        } else if self.selected_index == 1 {
            PieceType::Rook
        } else if self.selected_index == 2 {
            PieceType::Bishop
        } else {
            PieceType::Knight
        }
    }

    /// The display character for a promotion option.
    pub fn piece_char(&self, piece_type: PieceType) -> (r: &'static str)
        ensures
            self.use_unicode ==> r@ == (match piece_type {
                PieceType::Queen => seq!['\u{265B}'],
                PieceType::Rook => seq!['\u{265C}'],
                PieceType::Bishop => seq!['\u{265D}'],
                PieceType::Knight => seq!['\u{265E}'],
                _ => seq!['?'],
            }),
            !self.use_unicode ==> r@ == (match piece_type {
                PieceType::Queen => seq!['Q'],
                PieceType::Rook => seq!['R'],
                PieceType::Bishop => seq!['B'],
                PieceType::Knight => seq!['N'],
                _ => seq!['?'],
            }),
    {
        proof {
            reveal_strlit("\u{265B}");
            reveal_strlit("\u{265C}");
            reveal_strlit("\u{265D}");
            reveal_strlit("\u{265E}");
            reveal_strlit("?");
            reveal_strlit("Q");
            reveal_strlit("R");
            reveal_strlit("B");
            reveal_strlit("N");
        }
        let r = if self.use_unicode {
            match piece_type {
                PieceType::Queen => "\u{265B}",
                PieceType::Rook => "\u{265C}",
                PieceType::Bishop => "\u{265D}",
                PieceType::Knight => "\u{265E}",
                _ => "?",
            }
        } else {
            match piece_type {
                PieceType::Queen => "Q",
                PieceType::Rook => "R",
                PieceType::Bishop => "B",
                PieceType::Knight => "N",
                _ => "?",
            }
        };
        proof {
            if self.use_unicode {
                assert(r@ =~= (match piece_type {
                    PieceType::Queen => seq!['\u{265B}'],
                    PieceType::Rook => seq!['\u{265C}'],
                    PieceType::Bishop => seq!['\u{265D}'],
                    PieceType::Knight => seq!['\u{265E}'],
                    _ => seq!['?'],
                }));
            } else {
                assert(r@ =~= (match piece_type {
                    PieceType::Queen => seq!['Q'],
                    PieceType::Rook => seq!['R'],
                    PieceType::Bishop => seq!['B'],
                    PieceType::Knight => seq!['N'],
                    _ => seq!['?'],
                }));
            }
        }
        r
    }

    /// The label of a promotion option.
    pub fn piece_label(&self, piece_type: PieceType) -> (r: &'static str)
        ensures
            piece_type == PieceType::Queen || piece_type == PieceType::Rook || piece_type
                == PieceType::Bishop || piece_type == PieceType::Knight ==> r@
                == crate::pgn::piece_name_seq(piece_type).update(
                0,
                first_upper(crate::pgn::piece_name_seq(piece_type)[0]),
            ),
    {
        proof {
            reveal_strlit("Queen");
            reveal_strlit("Rook");
            reveal_strlit("Bishop");
            reveal_strlit("Knight");
            reveal_strlit("?");
        }
        let r = match piece_type {
            PieceType::Queen => "Queen",
            PieceType::Rook => "Rook",
            PieceType::Bishop => "Bishop",
            PieceType::Knight => "Knight",
            _ => "?",
        };
        proof {
            if piece_type == PieceType::Queen || piece_type == PieceType::Rook || piece_type
                == PieceType::Bishop || piece_type == PieceType::Knight {
                assert(r@ =~= crate::pgn::piece_name_seq(piece_type).update(
                    0,
                    first_upper(crate::pgn::piece_name_seq(piece_type)[0]),
                ));
            }
        }
        r
    }
}

/// An ASCII lowercase letter folded to uppercase.
pub open spec fn first_upper(c: char) -> char {
    if 97 <= c as u32 <= 122 {
        ((c as u32 - 32) as u8) as char
    } else {
        c
    }
}

} // verus!
