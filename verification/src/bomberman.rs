use vstd::prelude::*;

use crate::celda::{
    celda_tras_golpe, celda_vacia, clasificar_celda, es_direccion, token_enemigo, token_vacio,
    valor_digito, valor_digito_de, Celda,
};
use crate::modelo::{
    dentro, detonar, es_cuadrado, jugar, lema_detonar_medida, lema_tablero_con_bomba, medida,
    mensaje_de, mensaje_fallo, partida, paso, poner, rayo, FalloJuego, ResultadoJuego, Tablero,
};
use crate::punto::Punto;

verus! {

/// A game: the board, and the coordinates of bombs caught in a blast and
/// still waiting to detonate (the most recently caught detonates first).
pub struct Bomberman {
    pub tablero: Vec<Vec<String>>,
    pub pila_bombas: Vec<Punto>,
}

/// The mathematical value of a queue of coordinates.
pub open spec fn vista_pila(s: Seq<Punto>) -> Seq<(int, int)> {
    s.map_values(|p: Punto| p.vista())
}

/// The set of coordinates a vector holds.
pub open spec fn vista_conjunto(s: Seq<Punto>) -> Set<(int, int)> {
    Set::new(|q: (int, int)| exists|i: int| 0 <= i < s.len() && #[trigger] s[i].vista() == q)
}

/// Appending a coordinate to a queue appends its value to the queue's view.
proof fn lema_vista_pila_push(s: Seq<Punto>, p: Punto)
    ensures
        vista_pila(s.push(p)) == vista_pila(s).push(p.vista()),
{
    assert(vista_pila(s.push(p)) =~= vista_pila(s).push(p.vista()));
}

/// Dropping the last coordinate of a queue drops the last value of its view.
proof fn lema_vista_pila_drop(s: Seq<Punto>)
    requires
        s.len() > 0,
    ensures
        vista_pila(s.drop_last()) == vista_pila(s).drop_last(),
{
    assert(vista_pila(s.drop_last()) =~= vista_pila(s).drop_last());
}

/// Appending a coordinate to a vector inserts its value into the set it
/// holds.
proof fn lema_vista_conjunto_push(s: Seq<Punto>, p: Punto)
    ensures
        vista_conjunto(s.push(p)) == vista_conjunto(s).insert(p.vista()),
{
    let s2 = s.push(p);
    assert forall|q: (int, int)|
        vista_conjunto(s2).contains(q) implies vista_conjunto(s).insert(p.vista()).contains(
        q,
    ) by {
        let i = choose|i: int| 0 <= i < s2.len() && #[trigger] s2[i].vista() == q;
        if i < s.len() {
            assert(s[i].vista() == q);
        }
    }
    assert forall|q: (int, int)|
        vista_conjunto(s).insert(p.vista()).contains(q) implies vista_conjunto(s2).contains(
        q,
    ) by {
        if q == p.vista() {
            assert(s2[s.len() as int].vista() == q);
        } else {
            let i = choose|i: int| 0 <= i < s.len() && #[trigger] s[i].vista() == q;
            assert(s2[i].vista() == q);
        }
    }
    assert(vista_conjunto(s.push(p)) =~= vista_conjunto(s).insert(p.vista()));
}

/// An empty vector holds the empty set of coordinates.
proof fn lema_vista_conjunto_vacio()
    ensures
        vista_conjunto(Seq::<Punto>::empty()) == Set::<(int, int)>::empty(),
{
    assert(vista_conjunto(Seq::<Punto>::empty()) =~= Set::<(int, int)>::empty());
}

/// Whether the vector holds the given coordinate.
fn contiene(afectados: &Vec<Punto>, objetivo: Punto) -> (b: bool)
    ensures
        b == vista_conjunto(afectados@).contains(objetivo.vista()),
{
    let mut i: usize = 0;
    while i < afectados.len()
        invariant
            i <= afectados@.len(),
            forall|j: int| 0 <= j < i ==> #[trigger] afectados@[j].vista() != objetivo.vista(),
        decreases afectados@.len() - i,
    {
        if afectados[i] == objetivo {
            assert(afectados@[i as int].vista() == objetivo.vista());
            return true;
        }
        i += 1;
    }
    false
}

/// The coordinate one step from `punto` in the given direction, `None` when
/// that step leaves a board of `tamanio` rows and columns (the blast
/// dissipates there), or an error for a direction character that is not one
/// of `U`, `D`, `L`, `R`.
pub fn calcular_prox(direccion: char, punto: Punto, tamanio: usize) -> (r: Result<
    Option<Punto>,
    String,
>)
    requires
        punto.x < tamanio,
        punto.y < tamanio,
    ensures
        ({
            let sig = paso(direccion, punto.x as int, punto.y as int);
            match r {
                Ok(Some(q)) => es_direccion(direccion) && q.vista() == sig && 0 <= sig.0 < tamanio
                    && 0 <= sig.1 < tamanio,
                Ok(None) => es_direccion(direccion) && !(0 <= sig.0 < tamanio && 0 <= sig.1
                    < tamanio),
                Err(m) => !es_direccion(direccion) && m@ == mensaje_fallo(
                    FalloJuego::EntradaInvalida,
                ),
            }
        }),
{
    match direccion {
        'U' => if punto.y >= 1 {
            Ok(Some(Punto { x: punto.x, y: punto.y - 1 }))
        } else {
            Ok(None)
        },
        'D' => if punto.y + 1 < tamanio {
            Ok(Some(Punto { x: punto.x, y: punto.y + 1 }))
        } else {
            Ok(None)
        },
        'R' => if punto.x + 1 < tamanio {
            Ok(Some(Punto { x: punto.x + 1, y: punto.y }))
        } else {
            Ok(None)
        },
        'L' => if punto.x >= 1 {
            Ok(Some(Punto { x: punto.x - 1, y: punto.y }))
        } else {
            Ok(None)
        },
        _ => Err(mensaje_de(FalloJuego::EntradaInvalida)),
    }
}

/// Damages the enemy at `punto` for one passing blast: a coordinate already
/// in `enemigos_afectados` is left alone; otherwise it is recorded there and
/// the cell loses one health (empty at one). A missing health character, or
/// one that is not a digit between 1 and 9, is an error.
pub fn afectar_enemigo(
    enemigos_afectados: &mut Vec<Punto>,
    punto: Punto,
    tablero: &mut Vec<Vec<String>>,
    opt_vida_char: Option<char>,
) -> (r: Result<(), String>)
    requires
        punto.y < old(tablero)@.len(),
        punto.x < old(tablero)@[punto.y as int]@.len(),
    ensures
        final(tablero)@.len() == old(tablero)@.len(),
        forall|i: int| 0 <= i < old(tablero)@.len() ==> #[trigger] final(tablero)@[i]@.len()
            == old(tablero)@[i]@.len(),
        ({
            let ya = vista_conjunto(old(enemigos_afectados)@).contains(punto.vista());
            let vale = opt_vida_char matches Some(c) && valor_digito(c) >= 1;
            if ya {
                &&& r is Ok
                &&& final(tablero)@ == old(tablero)@
                &&& final(enemigos_afectados)@ == old(enemigos_afectados)@
            } else {
                &&& final(enemigos_afectados)@ == old(enemigos_afectados)@.push(punto)
                &&& if vale {
                    &&& r is Ok
                    &&& final(tablero).deep_view() == poner(
                        old(tablero).deep_view(),
                        punto.x as int,
                        punto.y as int,
                        celda_tras_golpe(valor_digito(opt_vida_char->Some_0)),
                    )
                } else {
                    &&& r matches Err(m) && m@ == mensaje_fallo(FalloJuego::EntradaInvalida)
                    &&& final(tablero)@ == old(tablero)@
                }
            }
        }),
{
    if !contiene(enemigos_afectados, punto) {
        enemigos_afectados.push(punto);
        let num: char = match opt_vida_char {
            Some(c) => c,
            None => 'X',
        };
        let vida = valor_digito_de(num);
        if vida == 0 {
            return Err(mensaje_de(FalloJuego::EntradaInvalida));
        }
        if vida == 1 {
            tablero[punto.y][punto.x] = token_vacio();
        } else {
            tablero[punto.y][punto.x] = token_enemigo(vida - 1);
        }
        proof {
            assert(final(tablero).deep_view() =~~= poner(
                old(tablero).deep_view(),
                punto.x as int,
                punto.y as int,
                celda_tras_golpe(vida),
            ));
        }
        Ok(())
    } else {
        Ok(())
    }
}

/// A blast with no range left, or one already off the board, changes
/// nothing.
proof fn lema_rayo_disipa(
    t: Tablero,
    pila: Seq<(int, int)>,
    g: Set<(int, int)>,
    a: nat,
    x: int,
    y: int,
    tras: bool,
    d: char,
)
    requires
        a == 0 || !dentro(t, x, y),
    ensures
        rayo(t, pila, g, a, x, y, tras, d) == Ok::<(Tablero, Seq<(int, int)>, Set<(int, int)>), FalloJuego>((t, pila, g)),
{
}

impl Bomberman {
    /// Propagates one directional blast from `punto`, with `alcance` range
    /// left, over `tablero`, queueing caught bombs on `self.pila_bombas`
    /// and recording damaged enemies in `enemigos_afectados`. Follows the
    /// specification `rayo` exactly; `self.tablero` itself is not touched.
    pub fn explosion_dirigida(
        &mut self,
        alcance: usize,
        punto: Punto,
        tipo: char,
        tablero: &mut Vec<Vec<String>>,
        enemigos_afectados: &mut Vec<Punto>,
        direccion: char,
    ) -> (r: Result<(), String>)
        requires
            es_cuadrado(old(tablero).deep_view()),
        ensures
            final(self).tablero == old(self).tablero,
            es_cuadrado(final(tablero).deep_view()),
            final(tablero)@.len() == old(tablero)@.len(),
            ({
                let antes = crate::modelo::rayo(
                    old(tablero).deep_view(),
                    vista_pila(old(self).pila_bombas@),
                    vista_conjunto(old(enemigos_afectados)@),
                    alcance as nat,
                    punto.x as int,
                    punto.y as int,
                    tipo == 'S',
                    direccion,
                );
                match r {
                    Ok(()) => antes matches Ok((t2, p2, g2)) && t2 == final(tablero).deep_view()
                        && p2 == vista_pila(final(self).pila_bombas@) && g2 == vista_conjunto(
                        final(enemigos_afectados)@,
                    ),
                    Err(m) => antes matches Err(f) && m@ == mensaje_fallo(f),
                }
            }),
        decreases alcance,
    {
        let n = tablero.len();
        if alcance == 0 || punto.x >= n || punto.y >= n {
            return Ok(());
        }
        let prox = match calcular_prox(direccion, punto, n) {
            Err(e) => {
                return Err(e);
            },
            Ok(o) => o,
        };
        proof {
            let t = tablero.deep_view();
            assert(t[punto.y as int] == tablero@[punto.y as int].deep_view());
            assert(tablero@[punto.y as int].deep_view().len() == tablero@[punto.y as int]@.len());
            assert(punto.x < tablero@[punto.y as int]@.len());
            assert(t[punto.y as int][punto.x as int] == tablero@[punto.y as int]@[punto.x as int]@);
        }
        let celda = clasificar_celda(tablero[punto.y][punto.x].as_str());
        match celda {
            Celda::Vacia => {
                match prox {
                    None => {
                        proof {
                            let sig = paso(direccion, punto.x as int, punto.y as int);
                            lema_rayo_disipa(
                                tablero.deep_view(),
                                vista_pila(self.pila_bombas@),
                                vista_conjunto(enemigos_afectados@),
                                (alcance - 1) as nat,
                                sig.0,
                                sig.1,
                                tipo == 'S',
                                direccion,
                            );
                        }
                        Ok(())
                    },
                    Some(q) => {
                        let res = self.explosion_dirigida(
                            alcance - 1,
                            q,
                            tipo,
                            tablero,
                            enemigos_afectados,
                            direccion,
                        );
                        proof {
                            let antes = crate::modelo::rayo(
                                old(tablero).deep_view(),
                                vista_pila(old(self).pila_bombas@),
                                vista_conjunto(old(enemigos_afectados)@),
                                alcance as nat,
                                punto.x as int,
                                punto.y as int,
                                tipo == 'S',
                                direccion,
                            );
                            let despues = crate::modelo::rayo(
                                old(tablero).deep_view(),
                                vista_pila(old(self).pila_bombas@),
                                vista_conjunto(old(enemigos_afectados)@),
                                (alcance - 1) as nat,
                                q.x as int,
                                q.y as int,
                                tipo == 'S',
                                direccion,
                            );
                            assert(antes == despues);
                        }
                        res
                    },
                }
            },
            Celda::Pared => Ok(()),
            Celda::Roca => {
                if tipo == 'S' {
                    match prox {
                        None => {
                            proof {
                                let sig = paso(direccion, punto.x as int, punto.y as int);
                                lema_rayo_disipa(
                                    tablero.deep_view(),
                                    vista_pila(self.pila_bombas@),
                                    vista_conjunto(enemigos_afectados@),
                                    (alcance - 1) as nat,
                                    sig.0,
                                    sig.1,
                                    tipo == 'S',
                                    direccion,
                                );
                            }
                            Ok(())
                        },
                        Some(q) => {
                            let res = self.explosion_dirigida(
                                alcance - 1,
                                q,
                                tipo,
                                tablero,
                                enemigos_afectados,
                                direccion,
                            );
                            proof {
                                let antes = crate::modelo::rayo(
                                    old(tablero).deep_view(),
                                    vista_pila(old(self).pila_bombas@),
                                    vista_conjunto(old(enemigos_afectados)@),
                                    alcance as nat,
                                    punto.x as int,
                                    punto.y as int,
                                    tipo == 'S',
                                    direccion,
                                );
                                let despues = crate::modelo::rayo(
                                    old(tablero).deep_view(),
                                    vista_pila(old(self).pila_bombas@),
                                    vista_conjunto(old(enemigos_afectados)@),
                                    (alcance - 1) as nat,
                                    q.x as int,
                                    q.y as int,
                                    tipo == 'S',
                                    direccion,
                                );
                                assert(antes == despues);
                            }
                            res
                        },
                    }
                } else {
                    Ok(())
                }
            },
            Celda::Bomba { .. } => {
                self.pila_bombas.push(punto);
                proof {
                    lema_vista_pila_push(old(self).pila_bombas@, punto);
                }
                Ok(())
            },
            Celda::Desvio { direccion: nueva } => {
                let gira = match calcular_prox(nueva, punto, n) {
                    Err(e) => {
                        return Err(e);
                    },
                    Ok(o) => o,
                };
                match gira {
                    None => {
                        proof {
                            let sig = paso(nueva, punto.x as int, punto.y as int);
                            lema_rayo_disipa(
                                tablero.deep_view(),
                                vista_pila(self.pila_bombas@),
                                vista_conjunto(enemigos_afectados@),
                                (alcance - 1) as nat,
                                sig.0,
                                sig.1,
                                tipo == 'S',
                                nueva,
                            );
                        }
                        Ok(())
                    },
                    Some(q) => {
                        let res = self.explosion_dirigida(
                            alcance - 1,
                            q,
                            tipo,
                            tablero,
                            enemigos_afectados,
                            nueva,
                        );
                        proof {
                            let antes = crate::modelo::rayo(
                                old(tablero).deep_view(),
                                vista_pila(old(self).pila_bombas@),
                                vista_conjunto(old(enemigos_afectados)@),
                                alcance as nat,
                                punto.x as int,
                                punto.y as int,
                                tipo == 'S',
                                direccion,
                            );
                            let despues = crate::modelo::rayo(
                                old(tablero).deep_view(),
                                vista_pila(old(self).pila_bombas@),
                                vista_conjunto(old(enemigos_afectados)@),
                                (alcance - 1) as nat,
                                q.x as int,
                                q.y as int,
                                tipo == 'S',
                                nueva,
                            );
                            assert(antes == despues);
                        }
                        res
                    },
                }
            },
            Celda::Enemigo { vida } => {
                let c1 = tablero[punto.y][punto.x].as_str().get_char(1);
                let ghost conjunto_antes = vista_conjunto(enemigos_afectados@);
                match afectar_enemigo(enemigos_afectados, punto, tablero, Some(c1)) {
                    Err(e) => Err(e),
                    Ok(()) => {
                        proof {
                            if !conjunto_antes.contains(punto.vista()) {
                                lema_vista_conjunto_push(
                                    old(enemigos_afectados)@,
                                    punto,
                                );
                            }
                            assert forall|i: int|
                                0 <= i < tablero.deep_view().len() implies #[trigger] tablero.deep_view()[i].len()
                                == tablero.deep_view().len() by {
                                assert(tablero.deep_view()[i] == tablero@[i].deep_view());
                                assert(old(tablero).deep_view()[i] == old(tablero)@[i].deep_view());
                            }
                            assert(es_cuadrado(tablero.deep_view()));
                            let antes = crate::modelo::rayo(
                                old(tablero).deep_view(),
                                vista_pila(old(self).pila_bombas@),
                                vista_conjunto(old(enemigos_afectados)@),
                                alcance as nat,
                                punto.x as int,
                                punto.y as int,
                                tipo == 'S',
                                direccion,
                            );
                            let sig = paso(direccion, punto.x as int, punto.y as int);
                            let despues = crate::modelo::rayo(
                                tablero.deep_view(),
                                vista_pila(self.pila_bombas@),
                                vista_conjunto(enemigos_afectados@),
                                (alcance - 1) as nat,
                                sig.0,
                                sig.1,
                                tipo == 'S',
                                direccion,
                            );
                            assert(antes == despues);
                        }
                        match prox {
                            None => {
                                proof {
                                    let sig = paso(direccion, punto.x as int, punto.y as int);
                                    lema_rayo_disipa(
                                        tablero.deep_view(),
                                        vista_pila(self.pila_bombas@),
                                        vista_conjunto(enemigos_afectados@),
                                        (alcance - 1) as nat,
                                        sig.0,
                                        sig.1,
                                        tipo == 'S',
                                        direccion,
                                    );
                                }
                                Ok(())
                            },
                            Some(q) => self.explosion_dirigida(
                                alcance - 1,
                                q,
                                tipo,
                                tablero,
                                enemigos_afectados,
                                direccion,
                            ),
                        }
                    },
                }
            },
            Celda::Invalida => Err(mensaje_de(FalloJuego::EntradaInvalida)),
        }
    }

    /// One detonation at `(x, y)`: copies the board, empties the bomb's
    /// cell there, and runs four blasts from the four neighbouring cells,
    /// in the order left, up, right, down, each with a fresh record of
    /// damaged enemies. Returns the resulting board; bombs caught by the
    /// blasts are queued on `self.pila_bombas`, and `self.tablero` itself
    /// is not touched. Follows the specification `detonar` exactly.
    pub fn explosion(&mut self, x: usize, y: usize, alcance: usize, tipo: char) -> (r: Result<
        Vec<Vec<String>>,
        String,
    >)
        requires
            es_cuadrado(old(self).tablero.deep_view()),
            x < old(self).tablero@.len(),
            y < old(self).tablero@.len(),
        ensures
            final(self).tablero == old(self).tablero,
            ({
                let antes = detonar(
                    old(self).tablero.deep_view(),
                    vista_pila(old(self).pila_bombas@),
                    x as int,
                    y as int,
                    alcance as nat,
                    tipo == 'S',
                );
                match r {
                    Ok(tab) => antes matches Ok((t4, p4)) && t4 == tab.deep_view() && p4
                        == vista_pila(final(self).pila_bombas@) && es_cuadrado(tab.deep_view())
                        && tab@.len() == old(self).tablero@.len(),
                    Err(m) => antes matches Err(f) && m@ == mensaje_fallo(f),
                }
            }),
    {
        let n = self.tablero.len();
        let mut tablero_aux = clonar_tablero(&self.tablero);
        proof {
            let td = self.tablero.deep_view();
            assert(td[y as int] == self.tablero@[y as int].deep_view());
            assert(self.tablero@[y as int]@.len() == td.len());
            assert(tablero_aux@[y as int]@.len() == self.tablero@[y as int]@.len());
        }
        tablero_aux[y][x] = token_vacio();
        let ghost t0 = poner(old(self).tablero.deep_view(), x as int, y as int, celda_vacia());
        proof {
            assert(tablero_aux.deep_view() =~~= t0);
            assert forall|i: int|
                0 <= i < tablero_aux.deep_view().len() implies #[trigger] tablero_aux.deep_view()[i].len()
                == tablero_aux.deep_view().len() by {
                assert(tablero_aux.deep_view()[i] == tablero_aux@[i].deep_view());
                assert(old(self).tablero.deep_view()[i] == old(self).tablero@[i].deep_view());
            }
            assert(es_cuadrado(tablero_aux.deep_view()));
            lema_vista_conjunto_vacio();
        }
        let r_izq: Result<(), String> = if x == 0 {
            proof {
                lema_rayo_disipa(
                    tablero_aux.deep_view(),
                    vista_pila(self.pila_bombas@),
                    Set::empty(),
                    alcance as nat,
                    x as int - 1,
                    y as int,
                    tipo == 'S',
                    'L',
                );
            }
            Ok(())
        } else {
            let mut golpeados: Vec<Punto> = Vec::new();
            self.explosion_dirigida(
                alcance,
                Punto { x: x - 1, y },
                tipo,
                &mut tablero_aux,
                &mut golpeados,
                'L',
            )
        };
        if let Err(e) = r_izq {
            return Err(e);
        }
        let r_arr: Result<(), String> = if y == 0 {
            proof {
                lema_rayo_disipa(
                    tablero_aux.deep_view(),
                    vista_pila(self.pila_bombas@),
                    Set::empty(),
                    alcance as nat,
                    x as int,
                    y as int - 1,
                    tipo == 'S',
                    'U',
                );
            }
            Ok(())
        } else {
            let mut golpeados: Vec<Punto> = Vec::new();
            self.explosion_dirigida(
                alcance,
                Punto { x, y: y - 1 },
                tipo,
                &mut tablero_aux,
                &mut golpeados,
                'U',
            )
        };
        if let Err(e) = r_arr {
            return Err(e);
        }
        let r_der: Result<(), String> = {
            let mut golpeados: Vec<Punto> = Vec::new();
            assert(x < n);
            self.explosion_dirigida(
                alcance,
                Punto { x: x + 1, y },
                tipo,
                &mut tablero_aux,
                &mut golpeados,
                'R',
            )
        };
        if let Err(e) = r_der {
            return Err(e);
        }
        let r_aba: Result<(), String> = {
            let mut golpeados: Vec<Punto> = Vec::new();
            assert(y < n);
            self.explosion_dirigida(
                alcance,
                Punto { x, y: y + 1 },
                tipo,
                &mut tablero_aux,
                &mut golpeados,
                'D',
            )
        };
        if let Err(e) = r_aba {
            return Err(e);
        }
        Ok(tablero_aux)
    }

    /// Starts the game: detonates the bomb at `(x, y)` — the cell must hold
    /// `B1`..`B9` or `S1`..`S9`, else the coordinates are rejected — and
    /// then repeatedly pops and detonates the most recently queued bomb,
    /// under the same validation, until the queue is empty. On success the
    /// final board is in `self.tablero` and the queue is empty; on failure
    /// the first error is returned and the partly mutated state is of no
    /// significance. Follows the specification `partida` exactly.
    pub fn comenzar(&mut self, x: usize, y: usize) -> (r: Result<(), String>)
        requires
            es_cuadrado(old(self).tablero.deep_view()),
        ensures
            ({
                let antes = partida(
                    old(self).tablero.deep_view(),
                    vista_pila(old(self).pila_bombas@),
                    x as int,
                    y as int,
                );
                match r {
                    Ok(()) => antes matches ResultadoJuego::Listo(tf)
                        && tf == final(self).tablero.deep_view()
                        && final(self).pila_bombas@.len() == 0,
                    Err(m) => antes matches ResultadoJuego::Falla(f) && m@ == mensaje_fallo(f),
                }
            }),
    {
        let ghost t0 = old(self).tablero.deep_view();
        let ghost p0 = vista_pila(old(self).pila_bombas@);
        let ghost f0 = medida(t0, p0);
        let mut cx = x;
        let mut cy = y;
        let ghost mut fk = f0;
        loop
            invariant
                t0 == old(self).tablero.deep_view(),
                p0 == vista_pila(old(self).pila_bombas@),
                f0 == medida(t0, p0),
                es_cuadrado(self.tablero.deep_view()),
                fk >= medida(self.tablero.deep_view(), vista_pila(self.pila_bombas@)),
                jugar(t0, p0, x as int, y as int, f0) == jugar(
                    self.tablero.deep_view(),
                    vista_pila(self.pila_bombas@),
                    cx as int,
                    cy as int,
                    fk,
                ),
            decreases fk,
        {
            let n = self.tablero.len();
            if cx >= n || cy >= n {
                return Err(mensaje_de(FalloJuego::CoordenadasInvalidas));
            }
            proof {
                let t = self.tablero.deep_view();
                assert(t[cy as int] == self.tablero@[cy as int].deep_view());
                assert(self.tablero@[cy as int].deep_view().len() == self.tablero@[cy as int]@.len());
                assert(cx < self.tablero@[cy as int]@.len());
                assert(t[cy as int][cx as int] == self.tablero@[cy as int]@[cx as int]@);
            }
            let celda = clasificar_celda(self.tablero[cy][cx].as_str());
            match celda {
                Celda::Bomba { traspaso, alcance } => {
                    proof {
                        lema_detonar_medida(
                            self.tablero.deep_view(),
                            vista_pila(self.pila_bombas@),
                            cx as int,
                            cy as int,
                            alcance as nat,
                            traspaso,
                        );
                        lema_tablero_con_bomba(self.tablero.deep_view(), cx as int, cy as int);
                    }
                    let tipo: char = if traspaso {
                        'S'
                    } else {
                        'B'
                    };
                    match self.explosion(cx, cy, alcance as usize, tipo) {
                        Err(e) => {
                            return Err(e);
                        },
                        Ok(tab) => {
                            self.tablero = tab;
                            if self.pila_bombas.len() == 0 {
                                return Ok(());
                            }
                            let ghost pila_antes = self.pila_bombas@;
                            match self.pila_bombas.pop() {
                                Some(p) => {
                                    cx = p.x;
                                    cy = p.y;
                                    proof {
                                        lema_vista_pila_drop(pila_antes);
                                        assert(vista_pila(self.pila_bombas@) == vista_pila(
                                            pila_antes,
                                        ).drop_last());
                                        fk = (fk - 1) as nat;
                                    }
                                },
                                None => {
                                    return Ok(());
                                },
                            }
                        },
                    }
                },
                _ => {
                    return Err(mensaje_de(FalloJuego::CoordenadasInvalidas));
                },
            }
        }
    }
}

/// A fresh copy of a board, cell by cell.
fn clonar_tablero(t: &Vec<Vec<String>>) -> (r: Vec<Vec<String>>)
    ensures
        r.deep_view() == t.deep_view(),
        r@.len() == t@.len(),
        forall|i: int| 0 <= i < t@.len() ==> #[trigger] r@[i]@.len() == t@[i]@.len(),
{
    let mut r: Vec<Vec<String>> = Vec::new();
    let mut i: usize = 0;
    while i < t.len()
        invariant
            i <= t@.len(),
            r@.len() == i,
            forall|k: int| 0 <= k < i ==> #[trigger] r@[k]@ == t@[k]@,
        decreases t@.len() - i,
    {
        let mut fila: Vec<String> = Vec::new();
        let mut j: usize = 0;
        while j < t[i].len()
            invariant
                i < t@.len(),
                j <= t@[i as int]@.len(),
                fila@.len() == j,
                forall|k: int| 0 <= k < j ==> #[trigger] fila@[k] == t@[i as int]@[k],
            decreases t@[i as int]@.len() - j,
        {
            fila.push(t[i][j].clone());
            j += 1;
        }
        assert(fila@ =~= t@[i as int]@);
        r.push(fila);
        i += 1;
    }
    proof {
        assert(r.deep_view() =~~= t.deep_view());
    }
    r
}

} // verus!
