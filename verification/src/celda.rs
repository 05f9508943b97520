use vstd::prelude::*;

verus! {

/// True for the four direction characters: up, down, left, right.
pub open spec fn es_direccion(c: char) -> bool {
    c == 'U' || c == 'D' || c == 'L' || c == 'R'
}

/// Semantic kind of one board token, with its payload.
#[derive(Clone, Copy, PartialEq, Eq, Structural, Debug)]
pub enum Celda {
    /// `_`: a blast passes through.
    Vacia,
    /// `W`: stops every blast.
    Pared,
    /// `R`: stops a normal bomb's blast; a pass-through blast continues.
    Roca,
    /// `B<n>` (normal) or `S<n>` (pass-through), range 1 to 9.
    Bomba { traspaso: bool, alcance: u8 },
    /// `F<h>`, health 1 to 9.
    Enemigo { vida: u8 },
    /// `D<dir>`: redirects a blast to `direccion` (one of `U`, `D`, `L`, `R`).
    Desvio { direccion: char },
    /// Any other token; touching it during propagation is an error.
    Invalida,
}

/// Payload value of a token character: 1 to 9, or 0 when the character is
/// no valid payload digit (a payload of 0 is itself invalid).
pub open spec fn valor_digito(c: char) -> u8 {
    match c {
        '1' => 1,
        '2' => 2,
        '3' => 3,
        '4' => 4,
        '5' => 5,
        '6' => 6,
        '7' => 7,
        '8' => 8,
        '9' => 9,
        _ => 0,
    }
}

/// The digit character of a payload value between 1 and 9.
pub open spec fn caracter_digito(v: u8) -> char {
    match v {
        1 => '1',
        2 => '2',
        3 => '3',
        4 => '4',
        5 => '5',
        6 => '6',
        7 => '7',
        8 => '8',
        9 => '9',
        _ => '_',
    }
}

/// Classification of a token: the exact shapes are `_`, `W`, `R`,
/// `B1`..`B9`, `S1`..`S9`, `F1`..`F9` and `DU`, `DD`, `DL`, `DR`;
/// every other string is `Invalida`.
pub open spec fn clasificar(s: Seq<char>) -> Celda {
    if s.len() == 1 {
        if s[0] == '_' {
            Celda::Vacia
        } else if s[0] == 'W' {
            Celda::Pared
        } else if s[0] == 'R' {
            Celda::Roca
        } else {
            Celda::Invalida
        }
    } else if s.len() == 2 {
        if (s[0] == 'B' || s[0] == 'S') && valor_digito(s[1]) >= 1 {
            Celda::Bomba { traspaso: s[0] == 'S', alcance: valor_digito(s[1]) }
        } else if s[0] == 'F' && valor_digito(s[1]) >= 1 {
            Celda::Enemigo { vida: valor_digito(s[1]) }
        } else if s[0] == 'D' && es_direccion(s[1]) {
            Celda::Desvio { direccion: s[1] }
        } else {
            Celda::Invalida
        }
    } else {
        Celda::Invalida
    }
}

/// The empty-cell token, as a sequence of characters.
pub open spec fn celda_vacia() -> Seq<char> {
    seq!['_']
}

/// The enemy token with the given health, as a sequence of characters.
pub open spec fn celda_enemigo(vida: u8) -> Seq<char> {
    seq!['F', caracter_digito(vida)]
}

/// What an enemy cell becomes when a blast damages it: empty at one health,
/// otherwise an enemy with one health less.
pub open spec fn celda_tras_golpe(vida: u8) -> Seq<char> {
    if vida == 1 {
        celda_vacia()
    } else {
        celda_enemigo((vida - 1) as u8)
    }
}

/// Payload value of a token character, executable form.
pub fn valor_digito_de(c: char) -> (v: u8)
    ensures
        v == valor_digito(c),
{
    match c {
        '1' => 1,
        '2' => 2,
        '3' => 3,
        '4' => 4,
        '5' => 5,
        '6' => 6,
        '7' => 7,
        '8' => 8,
        '9' => 9,
        _ => 0,
    }
}

/// Classifies a board token.
pub fn clasificar_celda(s: &str) -> (c: Celda)
    ensures
        c == clasificar(s@),
{
    let n = s.unicode_len();
    if n == 1 {
        let c0 = s.get_char(0);
        if c0 == '_' {
            Celda::Vacia
        } else if c0 == 'W' {
            Celda::Pared
        } else if c0 == 'R' {
            Celda::Roca
        } else {
            Celda::Invalida
        }
    } else if n == 2 {
        let c0 = s.get_char(0);
        let c1 = s.get_char(1);
        let v = valor_digito_de(c1);
        if (c0 == 'B' || c0 == 'S') && v >= 1 {
            Celda::Bomba { traspaso: c0 == 'S', alcance: v }
        } else if c0 == 'F' && v >= 1 {
            Celda::Enemigo { vida: v }
        } else if c0 == 'D' && (c1 == 'U' || c1 == 'D' || c1 == 'L' || c1 == 'R') {
            Celda::Desvio { direccion: c1 }
        } else {
            Celda::Invalida
        }
    } else {
        Celda::Invalida
    }
}

/// The empty-cell token as an owned string.
pub fn token_vacio() -> (s: String)
    ensures
        s@ == celda_vacia(),
{
    let s = String::from_str("_");
    proof {
        reveal_strlit("_");
        assert(s@ =~= celda_vacia());
    }
    s
}

/// The enemy token with the given health as an owned string.
pub fn token_enemigo(vida: u8) -> (s: String)
    requires
        1 <= vida <= 9,
    ensures
        s@ == celda_enemigo(vida),
{
    let s = match vida {
        1 => {
            proof {
                reveal_strlit("F1");
            }
            String::from_str("F1")
        },
        2 => {
            proof {
                reveal_strlit("F2");
            }
            String::from_str("F2")
        },
        3 => {
            proof {
                reveal_strlit("F3");
            }
            String::from_str("F3")
        },
        4 => {
            proof {
                reveal_strlit("F4");
            }
            String::from_str("F4")
        },
        5 => {
            proof {
                reveal_strlit("F5");
            }
            String::from_str("F5")
        },
        6 => {
            proof {
                reveal_strlit("F6");
            }
            String::from_str("F6")
        },
        7 => {
            proof {
                reveal_strlit("F7");
            }
            String::from_str("F7")
        },
        8 => {
            proof {
                reveal_strlit("F8");
            }
            String::from_str("F8")
        },
        _ => {
            proof {
                reveal_strlit("F9");
            }
            String::from_str("F9")
        },
    };
    proof {
        assert(s@ =~= celda_enemigo(vida));
    }
    s
}

} // verus!
