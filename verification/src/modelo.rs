use vstd::prelude::*;

use crate::celda::{
    celda_tras_golpe, celda_vacia, clasificar, es_direccion, Celda,
};

verus! {

/// The mathematical value of a board: rows of cells, each cell a token.
pub type Tablero = Seq<Seq<Seq<char>>>;

/// A board is square when every row is as long as the list of rows.
pub open spec fn es_cuadrado(t: Tablero) -> bool {
    forall|i: int| 0 <= i < t.len() ==> #[trigger] t[i].len() == t.len()
}

/// True when `(x, y)` lies on the board.
pub open spec fn dentro(t: Tablero, x: int, y: int) -> bool {
    0 <= x < t.len() && 0 <= y < t.len()
}

/// The token at column `x` of row `y`.
pub open spec fn celda_en(t: Tablero, x: int, y: int) -> Seq<char> {
    t[y][x]
}

/// The board with the token at `(x, y)` replaced by `s`.
pub open spec fn poner(t: Tablero, x: int, y: int, s: Seq<char>) -> Tablero {
    t.update(y, t[y].update(x, s))
}

/// The two ways a detonation can fail.
#[derive(Clone, Copy, PartialEq, Eq, Structural, Debug)]
pub enum FalloJuego {
    /// The target of a detonation is off the board or not a bomb of range
    /// 1 to 9.
    CoordenadasInvalidas,
    /// A blast touched a token it cannot classify.
    EntradaInvalida,
}

/// The error description that callers receive for each failure.
pub open spec fn mensaje_fallo(f: FalloJuego) -> Seq<char> {
    match f {
        FalloJuego::CoordenadasInvalidas => "Error: coordenadas invalidas"@,
        FalloJuego::EntradaInvalida => "Error: archivo de entrada invalido"@,
    }
}

/// The error description for each failure, as an owned string.
pub fn mensaje_de(f: FalloJuego) -> (s: String)
    ensures
        s@ == mensaje_fallo(f),
{
    match f {
        FalloJuego::CoordenadasInvalidas => String::from_str("Error: coordenadas invalidas"),
        FalloJuego::EntradaInvalida => String::from_str("Error: archivo de entrada invalido"),
    }
}

/// The neighbouring coordinate one step in direction `d`.
pub open spec fn paso(d: char, x: int, y: int) -> (int, int) {
    if d == 'U' {
        (x, y - 1)
    } else if d == 'D' {
        (x, y + 1)
    } else if d == 'R' {
        (x + 1, y)
    } else {
        (x - 1, y)
    }
}

/// What one directional blast does, one cell per unit of range.
///
/// `pila` is the queue of bombs caught so far, `golpeados` the enemies this
/// blast branch has already damaged. The blast dissipates when its range is
/// spent or it leaves the board; a wall always stops it, a rock stops it
/// unless the bomb is pass-through, a bomb is queued (and the blast stops),
/// a deflector turns it, and an enemy not yet in `golpeados` loses one
/// health. An unclassifiable token is an error.
pub open spec fn rayo(
    t: Tablero,
    pila: Seq<(int, int)>,
    golpeados: Set<(int, int)>,
    alcance: nat,
    x: int,
    y: int,
    traspaso: bool,
    d: char,
) -> Result<(Tablero, Seq<(int, int)>, Set<(int, int)>), FalloJuego>
    decreases alcance,
{
    if alcance == 0 || !dentro(t, x, y) {
        Ok((t, pila, golpeados))
    } else if !es_direccion(d) {
        Err(FalloJuego::EntradaInvalida)
    } else {
        let sig = paso(d, x, y);
        match clasificar(celda_en(t, x, y)) {
            Celda::Vacia => rayo(t, pila, golpeados, (alcance - 1) as nat, sig.0, sig.1, traspaso, d),
            Celda::Pared => Ok((t, pila, golpeados)),
            Celda::Roca => if traspaso {
                rayo(t, pila, golpeados, (alcance - 1) as nat, sig.0, sig.1, traspaso, d)
            } else {
                Ok((t, pila, golpeados))
            },
            Celda::Bomba { .. } => Ok((t, pila.push((x, y)), golpeados)),
            Celda::Desvio { direccion } => {
                let gira = paso(direccion, x, y);
                rayo(t, pila, golpeados, (alcance - 1) as nat, gira.0, gira.1, traspaso, direccion)
            },
            Celda::Enemigo { vida } => if golpeados.contains((x, y)) {
                rayo(t, pila, golpeados, (alcance - 1) as nat, sig.0, sig.1, traspaso, d)
            } else {
                rayo(
                    poner(t, x, y, celda_tras_golpe(vida)),
                    pila,
                    golpeados.insert((x, y)),
                    (alcance - 1) as nat,
                    sig.0,
                    sig.1,
                    traspaso,
                    d,
                )
            },
            Celda::Invalida => Err(FalloJuego::EntradaInvalida),
        }
    }
}

/// One detonation: the bomb's cell becomes empty, then four blasts leave its
/// four neighbours, outward, in the order left, up, right, down, each with a
/// fresh set of damaged enemies. Each blast sees the mutations of the
/// previous ones; the first failure is the result.
pub open spec fn detonar(
    t: Tablero,
    pila: Seq<(int, int)>,
    x: int,
    y: int,
    alcance: nat,
    traspaso: bool,
) -> Result<(Tablero, Seq<(int, int)>), FalloJuego> {
    let t0 = poner(t, x, y, celda_vacia());
    match rayo(t0, pila, Set::empty(), alcance, x - 1, y, traspaso, 'L') {
        Err(f) => Err(f),
        Ok((t1, p1, _)) => match rayo(t1, p1, Set::empty(), alcance, x, y - 1, traspaso, 'U') {
            Err(f) => Err(f),
            Ok((t2, p2, _)) => match rayo(t2, p2, Set::empty(), alcance, x + 1, y, traspaso, 'R') {
                Err(f) => Err(f),
                Ok((t3, p3, _)) => match rayo(t3, p3, Set::empty(), alcance, x, y + 1, traspaso, 'D') {
                    Err(f) => Err(f),
                    Ok((t4, p4, _)) => Ok((t4, p4)),
                },
            },
        },
    }
}

/// True when the token is a bomb of either kind.
pub open spec fn es_bomba(s: Seq<char>) -> bool {
    clasificar(s) is Bomba
}

/// How many bombs a row holds.
pub open spec fn bombas_en_fila(f: Seq<Seq<char>>) -> nat
    decreases f.len(),
{
    if f.len() == 0 {
        0
    } else {
        bombas_en_fila(f.drop_last()) + if es_bomba(f.last()) {
            1nat
        } else {
            0nat
        }
    }
}

/// How many bombs the board holds.
pub open spec fn cuenta_bombas(t: Tablero) -> nat
    decreases t.len(),
{
    if t.len() == 0 {
        0
    } else {
        cuenta_bombas(t.drop_last()) + bombas_en_fila(t.last())
    }
}

/// Replacing one cell of a row changes its bomb count by the difference
/// between the old and the new cell.
proof fn lema_bombas_fila_poner(f: Seq<Seq<char>>, x: int, s: Seq<char>)
    requires
        0 <= x < f.len(),
    ensures
        bombas_en_fila(f.update(x, s)) + (if es_bomba(f[x]) { 1nat } else { 0nat })
            == bombas_en_fila(f) + (if es_bomba(s) { 1nat } else { 0nat }),
    decreases f.len(),
{
    let g = f.update(x, s);
    if x == f.len() - 1 {
        assert(g.drop_last() =~= f.drop_last());
        assert(g.last() == s);
    } else {
        lema_bombas_fila_poner(f.drop_last(), x, s);
        assert(g.drop_last() =~= f.drop_last().update(x, s));
        assert(g.last() == f.last());
    }
}

/// A row update only touches that row's share of the board's bomb count.
proof fn lema_cuenta_fila(t: Tablero, y: int, f: Seq<Seq<char>>)
    requires
        0 <= y < t.len(),
    ensures
        cuenta_bombas(t.update(y, f)) + bombas_en_fila(t[y]) == cuenta_bombas(t) + bombas_en_fila(f),
    decreases t.len(),
{
    let u = t.update(y, f);
    if y == t.len() - 1 {
        assert(u.drop_last() =~= t.drop_last());
        assert(u.last() == f);
    } else {
        lema_cuenta_fila(t.drop_last(), y, f);
        assert(u.drop_last() =~= t.drop_last().update(y, f));
        assert(u.last() == t.last());
    }
}

/// Replacing one cell changes the board's bomb count by the difference
/// between the old and the new cell.
pub proof fn lema_cuenta_poner(t: Tablero, x: int, y: int, s: Seq<char>)
    requires
        0 <= y < t.len(),
        0 <= x < t[y].len(),
    ensures
        cuenta_bombas(poner(t, x, y, s)) + (if es_bomba(celda_en(t, x, y)) { 1nat } else { 0nat })
            == cuenta_bombas(t) + (if es_bomba(s) { 1nat } else { 0nat }),
{
    lema_bombas_fila_poner(t[y], x, s);
    lema_cuenta_fila(t, y, t[y].update(x, s));
}

/// A damaged enemy cell is never a bomb.
proof fn lema_golpe_no_bomba(vida: u8)
    ensures
        !es_bomba(celda_tras_golpe(vida)),
{
}

/// A blast never adds a bomb to the board, grows the queue by at most one
/// coordinate, and keeps the board's shape.
pub proof fn lema_rayo_medida(
    t: Tablero,
    pila: Seq<(int, int)>,
    golpeados: Set<(int, int)>,
    alcance: nat,
    x: int,
    y: int,
    traspaso: bool,
    d: char,
)
    requires
        es_cuadrado(t),
    ensures
        rayo(t, pila, golpeados, alcance, x, y, traspaso, d) matches Ok((t2, p2, g2)) ==> {
            &&& cuenta_bombas(t2) == cuenta_bombas(t)
            &&& p2.len() <= pila.len() + 1
            &&& t2.len() == t.len()
            &&& es_cuadrado(t2)
        },
    decreases alcance,
{
    if alcance == 0 || !dentro(t, x, y) {
    } else if !es_direccion(d) {
    } else {
        let sig = paso(d, x, y);
        match clasificar(celda_en(t, x, y)) {
            Celda::Vacia => {
                lema_rayo_medida(t, pila, golpeados, (alcance - 1) as nat, sig.0, sig.1, traspaso, d);
            },
            Celda::Pared => {},
            Celda::Roca => {
                if traspaso {
                    lema_rayo_medida(t, pila, golpeados, (alcance - 1) as nat, sig.0, sig.1, traspaso, d);
                }
            },
            Celda::Bomba { .. } => {},
            Celda::Desvio { direccion } => {
                let gira = paso(direccion, x, y);
                lema_rayo_medida(
                    t,
                    pila,
                    golpeados,
                    (alcance - 1) as nat,
                    gira.0,
                    gira.1,
                    traspaso,
                    direccion,
                );
            },
            Celda::Enemigo { vida } => {
                if golpeados.contains((x, y)) {
                    lema_rayo_medida(t, pila, golpeados, (alcance - 1) as nat, sig.0, sig.1, traspaso, d);
                } else {
                    let t1 = poner(t, x, y, celda_tras_golpe(vida));
                    lema_golpe_no_bomba(vida);
                    lema_cuenta_poner(t, x, y, celda_tras_golpe(vida));
                    assert(es_cuadrado(t1));
                    lema_rayo_medida(
                        t1,
                        pila,
                        golpeados.insert((x, y)),
                        (alcance - 1) as nat,
                        sig.0,
                        sig.1,
                        traspaso,
                        d,
                    );
                }
            },
            Celda::Invalida => {},
        }
    }
}

/// Detonating a bomb removes at least that bomb from the board and queues at
/// most four coordinates, keeping the board's shape.
pub proof fn lema_detonar_medida(
    t: Tablero,
    pila: Seq<(int, int)>,
    x: int,
    y: int,
    alcance: nat,
    traspaso: bool,
)
    requires
        es_cuadrado(t),
        dentro(t, x, y),
        es_bomba(celda_en(t, x, y)),
    ensures
        detonar(t, pila, x, y, alcance, traspaso) matches Ok((t4, p4)) ==> {
            &&& cuenta_bombas(t4) + 1 == cuenta_bombas(t)
            &&& p4.len() <= pila.len() + 4
            &&& t4.len() == t.len()
            &&& es_cuadrado(t4)
        },
{
    let t0 = poner(t, x, y, celda_vacia());
    lema_cuenta_poner(t, x, y, celda_vacia());
    assert(es_cuadrado(t0));
    lema_rayo_medida(t0, pila, Set::empty(), alcance, x - 1, y, traspaso, 'L');
    if let Ok((t1, p1, _)) = rayo(t0, pila, Set::empty(), alcance, x - 1, y, traspaso, 'L') {
        lema_rayo_medida(t1, p1, Set::empty(), alcance, x, y - 1, traspaso, 'U');
        if let Ok((t2, p2, _)) = rayo(t1, p1, Set::empty(), alcance, x, y - 1, traspaso, 'U') {
            lema_rayo_medida(t2, p2, Set::empty(), alcance, x + 1, y, traspaso, 'R');
            if let Ok((t3, p3, _)) = rayo(t2, p2, Set::empty(), alcance, x + 1, y, traspaso, 'R') {
                lema_rayo_medida(t3, p3, Set::empty(), alcance, x, y + 1, traspaso, 'D');
            }
        }
    }
}

/// A bound on the work a game still has to do: five steps per bomb on the
/// board, one per queued coordinate.
pub open spec fn medida(t: Tablero, pila: Seq<(int, int)>) -> nat {
    5 * cuenta_bombas(t) + pila.len()
}

/// The outcome of a game: the final board, a failure, or fuel ran out
/// before the queue emptied (which `lema_jugar_basta` rules out for fuel of
/// at least `medida`).
pub enum ResultadoJuego {
    Listo(Tablero),
    Falla(FalloJuego),
    Agotado,
}

/// The whole game from one detonation request, with a fuel bound on the
/// number of chained detonations: the cell at `(x, y)` must be a bomb of
/// range 1 to 9; it detonates, and then the most recently queued coordinate
/// is detonated in turn, under the same validation, until the queue is
/// empty. The result is the final board, or the first failure.
pub open spec fn jugar(
    t: Tablero,
    pila: Seq<(int, int)>,
    x: int,
    y: int,
    combustible: nat,
) -> ResultadoJuego
    decreases combustible,
{
    if !dentro(t, x, y) {
        ResultadoJuego::Falla(FalloJuego::CoordenadasInvalidas)
    } else {
        match clasificar(celda_en(t, x, y)) {
            Celda::Bomba { traspaso, alcance } => {
                match detonar(t, pila, x, y, alcance as nat, traspaso) {
                    Err(f) => ResultadoJuego::Falla(f),
                    Ok((t1, p1)) => {
                        if p1.len() == 0 {
                            ResultadoJuego::Listo(t1)
                        } else if combustible == 0 {
                            ResultadoJuego::Agotado
                        } else {
                            jugar(
                                t1,
                                p1.drop_last(),
                                p1.last().0,
                                p1.last().1,
                                (combustible - 1) as nat,
                            )
                        }
                    },
                }
            },
            _ => ResultadoJuego::Falla(FalloJuego::CoordenadasInvalidas),
        }
    }
}

/// The game from one detonation request, with fuel that `lema_jugar_basta`
/// proves sufficient: the chain always ends in a final board or a failure.
pub open spec fn partida(t: Tablero, pila: Seq<(int, int)>, x: int, y: int) -> ResultadoJuego {
    jugar(t, pila, x, y, medida(t, pila))
}

/// A row that holds a bomb contributes to the bomb count.
proof fn lema_fila_con_bomba(f: Seq<Seq<char>>, x: int)
    requires
        0 <= x < f.len(),
        es_bomba(f[x]),
    ensures
        bombas_en_fila(f) >= 1,
    decreases f.len(),
{
    if x < f.len() - 1 {
        lema_fila_con_bomba(f.drop_last(), x);
    }
}

/// A board with a bomb on it has a positive bomb count.
pub proof fn lema_tablero_con_bomba(t: Tablero, x: int, y: int)
    requires
        0 <= y < t.len(),
        0 <= x < t[y].len(),
        es_bomba(celda_en(t, x, y)),
    ensures
        cuenta_bombas(t) >= 1,
    decreases t.len(),
{
    if y == t.len() - 1 {
        lema_fila_con_bomba(t.last(), x);
    } else {
        lema_tablero_con_bomba(t.drop_last(), x, y);
    }
}

/// Termination of the chain reaction: on a square board, fuel of at least
/// `medida` is never exhausted, so `partida` always ends in a final board or
/// a failure.
pub proof fn lema_jugar_basta(t: Tablero, pila: Seq<(int, int)>, x: int, y: int, combustible: nat)
    requires
        es_cuadrado(t),
        combustible >= medida(t, pila),
    ensures
        !(jugar(t, pila, x, y, combustible) is Agotado),
    decreases combustible,
{
    if dentro(t, x, y) {
        match clasificar(celda_en(t, x, y)) {
            Celda::Bomba { traspaso, alcance } => {
                lema_detonar_medida(t, pila, x, y, alcance as nat, traspaso);
                match detonar(t, pila, x, y, alcance as nat, traspaso) {
                    Ok((t1, p1)) => {
                        if p1.len() > 0 {
                            lema_tablero_con_bomba(t, x, y);
                            lema_jugar_basta(
                                t1,
                                p1.drop_last(),
                                p1.last().0,
                                p1.last().1,
                                (combustible - 1) as nat,
                            );
                        }
                    },
                    Err(_) => {},
                }
            },
            _ => {},
        }
    }
}

/// Fuel is irrelevant once the game ends: any larger fuel gives the same
/// outcome.
pub proof fn lema_jugar_monotono(
    t: Tablero,
    pila: Seq<(int, int)>,
    x: int,
    y: int,
    c1: nat,
    c2: nat,
)
    requires
        c1 <= c2,
        !(jugar(t, pila, x, y, c1) is Agotado),
    ensures
        jugar(t, pila, x, y, c2) == jugar(t, pila, x, y, c1),
    decreases c1,
{
    if dentro(t, x, y) {
        match clasificar(celda_en(t, x, y)) {
            Celda::Bomba { traspaso, alcance } => {
                match detonar(t, pila, x, y, alcance as nat, traspaso) {
                    Ok((t1, p1)) => {
                        if p1.len() > 0 {
                            lema_jugar_monotono(
                                t1,
                                p1.drop_last(),
                                p1.last().0,
                                p1.last().1,
                                (c1 - 1) as nat,
                                (c2 - 1) as nat,
                            );
                        }
                    },
                    Err(_) => {},
                }
            },
            _ => {},
        }
    }
}

} // verus!
