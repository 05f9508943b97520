use vstd::prelude::*;

use crate::celda::{celda_tras_golpe, celda_vacia, clasificar, es_direccion, Celda};
use crate::modelo::{
    celda_en, cuenta_bombas, dentro, detonar, es_cuadrado, jugar, lema_detonar_medida,
    lema_rayo_medida, partida, paso, poner, rayo, FalloJuego, ResultadoJuego, Tablero,
};

verus! {

/// A blast changes nothing but the enemies it damages: any cell that is
/// not an enemy, and any enemy already recorded as damaged, keeps its token
/// through the blast; and the record of damaged enemies only ever grows.
pub proof fn lema_rayo_intacto(
    t: Tablero,
    pila: Seq<(int, int)>,
    golpeados: Set<(int, int)>,
    alcance: nat,
    x: int,
    y: int,
    traspaso: bool,
    d: char,
    px: int,
    py: int,
)
    requires
        es_cuadrado(t),
        dentro(t, px, py),
        golpeados.contains((px, py)) || !(clasificar(celda_en(t, px, py)) is Enemigo),
    ensures
        rayo(t, pila, golpeados, alcance, x, y, traspaso, d) matches Ok((t2, p2, g2)) ==> {
            &&& celda_en(t2, px, py) == celda_en(t, px, py)
            &&& golpeados.contains((px, py)) ==> g2.contains((px, py))
        },
    decreases alcance,
{
    if alcance == 0 || !dentro(t, x, y) {
    } else if !es_direccion(d) {
    } else {
        let sig = paso(d, x, y);
        match clasificar(celda_en(t, x, y)) {
            Celda::Vacia => {
                lema_rayo_intacto(
                    t,
                    pila,
                    golpeados,
                    (alcance - 1) as nat,
                    sig.0,
                    sig.1,
                    traspaso,
                    d,
                    px,
                    py,
                );
            },
            Celda::Pared => {},
            Celda::Roca => {
                if traspaso {
                    lema_rayo_intacto(
                        t,
                        pila,
                        golpeados,
                        (alcance - 1) as nat,
                        sig.0,
                        sig.1,
                        traspaso,
                        d,
                        px,
                        py,
                    );
                }
            },
            Celda::Bomba { .. } => {},
            Celda::Desvio { direccion } => {
                let gira = paso(direccion, x, y);
                lema_rayo_intacto(
                    t,
                    pila,
                    golpeados,
                    (alcance - 1) as nat,
                    gira.0,
                    gira.1,
                    traspaso,
                    direccion,
                    px,
                    py,
                );
            },
            Celda::Enemigo { vida } => {
                if golpeados.contains((x, y)) {
                    lema_rayo_intacto(
                        t,
                        pila,
                        golpeados,
                        (alcance - 1) as nat,
                        sig.0,
                        sig.1,
                        traspaso,
                        d,
                        px,
                        py,
                    );
                } else {
                    let t1 = poner(t, x, y, celda_tras_golpe(vida));
                    assert(es_cuadrado(t1));
                    assert((x, y) != (px, py));
                    assert(celda_en(t1, px, py) == celda_en(t, px, py));
                    lema_rayo_intacto(
                        t1,
                        pila,
                        golpeados.insert((x, y)),
                        (alcance - 1) as nat,
                        sig.0,
                        sig.1,
                        traspaso,
                        d,
                        px,
                        py,
                    );
                }
            },
            Celda::Invalida => {},
        }
    }
}

/// A wall stops a blast of either bomb kind: the board, the queue and the
/// damage record come through unchanged.
pub proof fn lema_pared(
    t: Tablero,
    pila: Seq<(int, int)>,
    golpeados: Set<(int, int)>,
    alcance: nat,
    x: int,
    y: int,
    traspaso: bool,
    d: char,
)
    requires
        es_direccion(d),
        dentro(t, x, y) ==> clasificar(celda_en(t, x, y)) is Pared,
    ensures
        rayo(t, pila, golpeados, alcance, x, y, traspaso, d) == Ok::<
            (Tablero, Seq<(int, int)>, Set<(int, int)>),
            FalloJuego,
        >((t, pila, golpeados)),
{
}

/// A rock stops the blast of a normal bomb, while a pass-through bomb's
/// blast carries on behind it with one unit of range spent.
pub proof fn lema_roca(
    t: Tablero,
    pila: Seq<(int, int)>,
    golpeados: Set<(int, int)>,
    alcance: nat,
    x: int,
    y: int,
    traspaso: bool,
    d: char,
)
    requires
        es_direccion(d),
        alcance >= 1,
        dentro(t, x, y),
        clasificar(celda_en(t, x, y)) is Roca,
    ensures
        !traspaso ==> rayo(t, pila, golpeados, alcance, x, y, traspaso, d) == Ok::<
            (Tablero, Seq<(int, int)>, Set<(int, int)>),
            FalloJuego,
        >((t, pila, golpeados)),
        traspaso ==> rayo(t, pila, golpeados, alcance, x, y, traspaso, d) == rayo(
            t,
            pila,
            golpeados,
            (alcance - 1) as nat,
            paso(d, x, y).0,
            paso(d, x, y).1,
            traspaso,
            d,
        ),
{
}

/// A deflector sends the blast on in its own direction, spending one unit
/// of range on the turn; the deflector cell itself is never erased.
pub proof fn lema_desvio(
    t: Tablero,
    pila: Seq<(int, int)>,
    golpeados: Set<(int, int)>,
    alcance: nat,
    x: int,
    y: int,
    traspaso: bool,
    d: char,
    nueva: char,
)
    requires
        es_cuadrado(t),
        es_direccion(d),
        alcance >= 1,
        dentro(t, x, y),
        clasificar(celda_en(t, x, y)) == (Celda::Desvio { direccion: nueva }),
    ensures
        rayo(t, pila, golpeados, alcance, x, y, traspaso, d) == rayo(
            t,
            pila,
            golpeados,
            (alcance - 1) as nat,
            paso(nueva, x, y).0,
            paso(nueva, x, y).1,
            traspaso,
            nueva,
        ),
        rayo(t, pila, golpeados, alcance, x, y, traspaso, d) matches Ok((t2, p2, g2))
            ==> celda_en(t2, x, y) == celda_en(t, x, y),
{
    lema_rayo_intacto(t, pila, golpeados, alcance, x, y, traspaso, d, x, y);
}

/// An enemy in a blast's path loses exactly one health the first time this
/// blast branch reaches it — empty at one health, one digit less otherwise
/// — and that branch never damages it a second time.
pub proof fn lema_enemigo_golpeado(
    t: Tablero,
    pila: Seq<(int, int)>,
    golpeados: Set<(int, int)>,
    alcance: nat,
    x: int,
    y: int,
    traspaso: bool,
    d: char,
)
    requires
        es_cuadrado(t),
        es_direccion(d),
        alcance >= 1,
        dentro(t, x, y),
        clasificar(celda_en(t, x, y)) is Enemigo,
        !golpeados.contains((x, y)),
    ensures
        rayo(t, pila, golpeados, alcance, x, y, traspaso, d) matches Ok((t2, p2, g2)) ==> {
            &&& celda_en(t2, x, y) == celda_tras_golpe(clasificar(celda_en(t, x, y))->Enemigo_vida)
            &&& g2.contains((x, y))
        },
{
    let vida = clasificar(celda_en(t, x, y))->Enemigo_vida;
    let t1 = poner(t, x, y, celda_tras_golpe(vida));
    let sig = paso(d, x, y);
    assert(es_cuadrado(t1));
    lema_rayo_intacto(
        t1,
        pila,
        golpeados.insert((x, y)),
        (alcance - 1) as nat,
        sig.0,
        sig.1,
        traspaso,
        d,
        x,
        y,
    );
}

/// An enemy a blast branch has already damaged keeps its token through the
/// rest of that branch, however often the branch passes over it again.
pub proof fn lema_enemigo_no_repite(
    t: Tablero,
    pila: Seq<(int, int)>,
    golpeados: Set<(int, int)>,
    alcance: nat,
    x: int,
    y: int,
    traspaso: bool,
    d: char,
    px: int,
    py: int,
)
    requires
        es_cuadrado(t),
        dentro(t, px, py),
        golpeados.contains((px, py)),
    ensures
        rayo(t, pila, golpeados, alcance, x, y, traspaso, d) matches Ok((t2, p2, g2))
            ==> celda_en(t2, px, py) == celda_en(t, px, py),
{
    lema_rayo_intacto(t, pila, golpeados, alcance, x, y, traspaso, d, px, py);
}

/// A damaged enemy that survives is an enemy with one health less.
proof fn lema_golpe_clasifica(vida: u8)
    requires
        2 <= vida <= 9,
    ensures
        clasificar(celda_tras_golpe(vida)) == (Celda::Enemigo { vida: (vida - 1) as u8 }),
{
}

/// Blast branches are independent: each starts with its own empty damage
/// record, so a second branch that reaches an enemy the first one already
/// damaged — whether of another bomb or another direction of the same one —
/// damages it again.
pub proof fn lema_ramas_independientes(
    t: Tablero,
    pila: Seq<(int, int)>,
    alcance1: nat,
    alcance2: nat,
    x: int,
    y: int,
    traspaso1: bool,
    traspaso2: bool,
    d1: char,
    d2: char,
)
    requires
        es_cuadrado(t),
        es_direccion(d1),
        es_direccion(d2),
        alcance1 >= 1,
        alcance2 >= 1,
        dentro(t, x, y),
        clasificar(celda_en(t, x, y)) is Enemigo,
        clasificar(celda_en(t, x, y))->Enemigo_vida >= 2,
    ensures
        rayo(t, pila, Set::empty(), alcance1, x, y, traspaso1, d1) matches Ok((t2, p2, g2)) ==> {
            let vida = clasificar(celda_en(t, x, y))->Enemigo_vida;
            &&& clasificar(celda_en(t2, x, y)) == (Celda::Enemigo { vida: (vida - 1) as u8 })
            &&& (rayo(t2, p2, Set::empty(), alcance2, x, y, traspaso2, d2) matches Ok(
                (t3, p3, g3),
            ) ==> celda_en(t3, x, y) == celda_tras_golpe((vida - 1) as u8))
        },
{
    let vida = clasificar(celda_en(t, x, y))->Enemigo_vida;
    lema_enemigo_golpeado(t, pila, Set::empty(), alcance1, x, y, traspaso1, d1);
    lema_golpe_clasifica(vida);
    if let Ok((t2, p2, g2)) = rayo(t, pila, Set::empty(), alcance1, x, y, traspaso1, d1) {
        lema_rayo_medida(t, pila, Set::empty(), alcance1, x, y, traspaso1, d1);
        lema_enemigo_golpeado(t2, p2, Set::empty(), alcance2, x, y, traspaso2, d2);
    }
}

/// True when a blast in direction `d` from `(x, y)` can never reach
/// `(cx, cy)` while running straight.
pub open spec fn esquiva(d: char, x: int, y: int, cx: int, cy: int) -> bool {
    if d == 'L' {
        y != cy || x < cx
    } else if d == 'R' {
        y != cy || x > cx
    } else if d == 'U' {
        x != cx || y < cy
    } else {
        x != cx || y > cy
    }
}

/// Over cells that are all empty — except possibly one that the blast runs
/// away from — a blast changes nothing and queues nothing.
pub proof fn lema_rayo_en_vacio(
    t: Tablero,
    pila: Seq<(int, int)>,
    golpeados: Set<(int, int)>,
    alcance: nat,
    x: int,
    y: int,
    traspaso: bool,
    d: char,
    cx: int,
    cy: int,
)
    requires
        es_direccion(d),
        esquiva(d, x, y, cx, cy),
        forall|yy: int, xx: int|
            0 <= yy < t.len() && 0 <= xx < t.len() && !(xx == cx && yy == cy) ==> #[trigger]
                clasificar(celda_en(t, xx, yy)) is Vacia,
    ensures
        rayo(t, pila, golpeados, alcance, x, y, traspaso, d) == Ok::<
            (Tablero, Seq<(int, int)>, Set<(int, int)>),
            FalloJuego,
        >((t, pila, golpeados)),
    decreases alcance,
{
    if alcance == 0 || !dentro(t, x, y) {
    } else {
        let sig = paso(d, x, y);
        assert(clasificar(celda_en(t, x, y)) is Vacia);
        assert(esquiva(d, sig.0, sig.1, cx, cy));
        lema_rayo_en_vacio(
            t,
            pila,
            golpeados,
            (alcance - 1) as nat,
            sig.0,
            sig.1,
            traspaso,
            d,
            cx,
            cy,
        );
    }
}

/// A bomb of any range and kind detonated on an otherwise empty board
/// succeeds and leaves the whole board empty: its own cell is cleared and
/// every other cell was empty already.
pub proof fn lema_bomba_sola(t: Tablero, pila: Seq<(int, int)>, x: int, y: int)
    requires
        es_cuadrado(t),
        dentro(t, x, y),
        clasificar(celda_en(t, x, y)) is Bomba,
        pila.len() == 0,
        forall|yy: int, xx: int|
            0 <= yy < t.len() && 0 <= xx < t.len() && !(xx == x && yy == y) ==> #[trigger]
                clasificar(celda_en(t, xx, yy)) is Vacia,
    ensures
        partida(t, pila, x, y) == ResultadoJuego::Listo(poner(t, x, y, celda_vacia())),
        forall|yy: int, xx: int|
            0 <= yy < t.len() && 0 <= xx < t.len() ==> #[trigger] clasificar(
                celda_en(poner(t, x, y, celda_vacia()), xx, yy),
            ) is Vacia,
{
    let alcance = clasificar(celda_en(t, x, y))->Bomba_alcance;
    let traspaso = clasificar(celda_en(t, x, y))->Bomba_traspaso;
    let t0 = poner(t, x, y, celda_vacia());
    assert(celda_en(t0, x, y) == celda_vacia());
    assert forall|yy: int, xx: int|
        0 <= yy < t0.len() && 0 <= xx < t0.len() implies #[trigger] clasificar(
        celda_en(t0, xx, yy),
    ) is Vacia by {
        if !(xx == x && yy == y) {
            assert(celda_en(t0, xx, yy) == celda_en(t, xx, yy));
        }
    }
    lema_rayo_en_vacio(
        t0,
        pila,
        Set::empty(),
        alcance as nat,
        x - 1,
        y,
        traspaso,
        'L',
        x,
        y,
    );
    lema_rayo_en_vacio(
        t0,
        pila,
        Set::empty(),
        alcance as nat,
        x,
        y - 1,
        traspaso,
        'U',
        x,
        y,
    );
    lema_rayo_en_vacio(
        t0,
        pila,
        Set::empty(),
        alcance as nat,
        x + 1,
        y,
        traspaso,
        'R',
        x,
        y,
    );
    lema_rayo_en_vacio(
        t0,
        pila,
        Set::empty(),
        alcance as nat,
        x,
        y + 1,
        traspaso,
        'D',
        x,
        y,
    );
    assert(detonar(t, pila, x, y, alcance as nat, traspaso) == Ok::<
        (Tablero, Seq<(int, int)>),
        FalloJuego,
    >((t0, pila)));
}

/// Every chained detonation consumes bombs: when a game ends in a final
/// board, at least the targeted bomb — and one more for every bomb the
/// blasts caught — is gone from it, so a chain of detonations cannot go on
/// for ever.
pub proof fn lema_jugar_consume(
    t: Tablero,
    pila: Seq<(int, int)>,
    x: int,
    y: int,
    combustible: nat,
)
    requires
        es_cuadrado(t),
    ensures
        jugar(t, pila, x, y, combustible) matches ResultadoJuego::Listo(tf) ==> cuenta_bombas(tf)
            < cuenta_bombas(t),
    decreases combustible,
{
    if dentro(t, x, y) {
        match clasificar(celda_en(t, x, y)) {
            Celda::Bomba { traspaso, alcance } => {
                lema_detonar_medida(t, pila, x, y, alcance as nat, traspaso);
                match detonar(t, pila, x, y, alcance as nat, traspaso) {
                    Ok((t1, p1)) => {
                        if p1.len() > 0 && combustible > 0 {
                            lema_jugar_consume(
                                t1,
                                p1.drop_last(),
                                p1.last().0,
                                p1.last().1,
                                (combustible - 1) as nat,
                            );
                        }
                    },
                    Err(_) => {},
                }
            },
            _ => {},
        }
    }
}

/// A bomb token whose range digit is zero is not a bomb: detonating such a
/// cell is rejected as invalid coordinates, not silently ignored.
pub proof fn lema_alcance_cero_rechazado(t: Tablero, pila: Seq<(int, int)>, x: int, y: int)
    requires
        dentro(t, x, y),
        celda_en(t, x, y).len() == 2,
        celda_en(t, x, y)[0] == 'B' || celda_en(t, x, y)[0] == 'S',
        celda_en(t, x, y)[1] == '0',
    ensures
        partida(t, pila, x, y) == ResultadoJuego::Falla(FalloJuego::CoordenadasInvalidas),
{
    assert(clasificar(celda_en(t, x, y)) is Invalida);
}

} // verus!
