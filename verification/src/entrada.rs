use vstd::prelude::*;

use crate::celda::{clasificar, clasificar_celda, valor_digito, Celda};
use crate::modelo::{es_cuadrado, mensaje_de, mensaje_fallo, FalloJuego, Tablero};
use crate::punto::Punto;

verus! {

/// A board is fit for play when it is square and every cell is one of the
/// recognized tokens.
pub open spec fn tablero_valido(t: Tablero) -> bool {
    &&& es_cuadrado(t)
    &&& forall|y: int, x: int|
        0 <= y < t.len() && 0 <= x < t[y].len() ==> !(#[trigger] clasificar(t[y][x]) is Invalida)
}

/// Whether the board is square with every cell one of the recognized
/// tokens; the board itself is left as it was.
pub fn es_tablero_valido(tablero: &mut Vec<Vec<String>>) -> (b: bool)
    ensures
        final(tablero)@ == old(tablero)@,
        b == tablero_valido(final(tablero).deep_view()),
{
    let n = tablero.len();
    let mut y: usize = 0;
    while y < n
        invariant
            tablero@ == old(tablero)@,
            n == tablero@.len(),
            y <= n,
            forall|j: int| 0 <= j < y ==> #[trigger] tablero@[j]@.len() == n,
            forall|j: int, i: int|
                0 <= j < y && 0 <= i < tablero@[j]@.len() ==> !(#[trigger] clasificar(
                    tablero@[j]@[i]@,
                ) is Invalida),
        decreases n - y,
    {
        if tablero[y].len() != n {
            proof {
                let t = tablero.deep_view();
                assert(t[y as int] == tablero@[y as int].deep_view());
                assert(t[y as int].len() != t.len());
            }
            return false;
        }
        let mut x: usize = 0;
        while x < n
            invariant
                tablero@ == old(tablero)@,
                n == tablero@.len(),
                y < n,
                x <= n,
                tablero@[y as int]@.len() == n,
                forall|i: int|
                    0 <= i < x ==> !(#[trigger] clasificar(tablero@[y as int]@[i]@) is Invalida),
            decreases n - x,
        {
            let celda = clasificar_celda(tablero[y][x].as_str());
            match celda {
                Celda::Invalida => {
                    proof {
                        let t = tablero.deep_view();
                        assert(t[y as int] == tablero@[y as int].deep_view());
                        assert(t[y as int][x as int] == tablero@[y as int]@[x as int]@);
                        assert(clasificar(t[y as int][x as int]) is Invalida);
                    }
                    return false;
                },
                _ => {},
            }
            x += 1;
        }
        y += 1;
    }
    proof {
        let t = tablero.deep_view();
        assert forall|j: int| 0 <= j < t.len() implies #[trigger] t[j].len() == t.len() by {
            assert(t[j] == tablero@[j].deep_view());
        }
        assert forall|j: int, i: int|
            0 <= j < t.len() && 0 <= i < t[j].len() implies !(#[trigger] clasificar(
            t[j][i],
        ) is Invalida) by {
            assert(t[j] == tablero@[j].deep_view());
            assert(t[j][i] == tablero@[j]@[i]@);
        }
    }
    true
}

/// True for the ten decimal digit characters.
pub open spec fn es_digito(c: char) -> bool {
    c == '0' || valor_digito(c) >= 1
}

/// The number a sequence of digit characters denotes, most significant
/// first.
pub open spec fn valor_decimal(s: Seq<char>) -> nat
    decreases s.len(),
{
    if s.len() == 0 {
        0
    } else {
        valor_decimal(s.drop_last()) * 10 + valor_digito(s.last()) as nat
    }
}

/// True when the string is a plain decimal number that fits in `usize`.
pub open spec fn numero_valido(s: Seq<char>) -> bool {
    &&& s.len() > 0
    &&& forall|i: int| 0 <= i < s.len() ==> es_digito(#[trigger] s[i])
    &&& valor_decimal(s) <= usize::MAX
}

/// Reading more digits never makes the number smaller.
proof fn lema_valor_prefijo(s: Seq<char>, i: int)
    requires
        0 <= i <= s.len(),
    ensures
        valor_decimal(s.take(i)) <= valor_decimal(s),
    decreases s.len() - i,
{
    if i < s.len() {
        assert(s.take(i + 1).drop_last() =~= s.take(i));
        assert(s.take(i + 1).last() == s[i]);
        lema_valor_prefijo(s, i + 1);
    } else {
        assert(s.take(i) =~= s);
    }
}

/// Reads a plain decimal number: `Some` exactly when every character is a
/// digit, there is at least one, and the value fits in `usize`.
pub fn parsear_usize(s: &str) -> (r: Option<usize>)
    ensures
        match r {
            Some(v) => numero_valido(s@) && v == valor_decimal(s@),
            None => !numero_valido(s@),
        },
{
    let n = s.unicode_len();
    if n == 0 {
        return None;
    }
    let mut acumulado: usize = 0;
    let mut i: usize = 0;
    while i < n
        invariant
            i <= n,
            n == s@.len(),
            forall|j: int| 0 <= j < i ==> es_digito(#[trigger] s@[j]),
            acumulado == valor_decimal(s@.take(i as int)),
        decreases n - i,
    {
        let c = s.get_char(i);
        let d = crate::celda::valor_digito_de(c);
        if c != '0' && d == 0 {
            return None;
        }
        proof {
            assert(s@.take(i + 1).drop_last() =~= s@.take(i as int));
            assert(s@.take(i + 1).last() == s@[i as int]);
        }
        if acumulado > usize::MAX / 10 {
            proof {
                lema_valor_prefijo(s@, i + 1);
            }
            return None;
        }
        let paso: usize = acumulado * 10;
        if d as usize > usize::MAX - paso {
            proof {
                lema_valor_prefijo(s@, i + 1);
            }
            return None;
        }
        acumulado = paso + d as usize;
        i += 1;
    }
    proof {
        assert(s@.take(n as int) =~= s@);
    }
    Some(acumulado)
}

/// Reads the two coordinate arguments at `i1` and `i2` of `args` and checks
/// them against the board size: both must be plain decimal numbers below
/// `tamanio`, else the coordinates are rejected.
pub fn extraer_coord(args: Vec<String>, tamanio: usize, i1: usize, i2: usize) -> (r: Result<
    Punto,
    String,
>)
    requires
        i1 < args@.len(),
        i2 < args@.len(),
    ensures
        ({
            let sx = args@[i1 as int]@;
            let sy = args@[i2 as int]@;
            match r {
                Ok(p) => numero_valido(sx) && numero_valido(sy) && p.x == valor_decimal(sx)
                    && p.y == valor_decimal(sy) && p.x < tamanio && p.y < tamanio,
                Err(m) => !(numero_valido(sx) && numero_valido(sy) && valor_decimal(sx) < tamanio
                    && valor_decimal(sy) < tamanio) && m@ == mensaje_fallo(
                    FalloJuego::CoordenadasInvalidas,
                ),
            }
        }),
{
    let x = match parsear_usize(args[i1].as_str()) {
        Some(v) => v,
        None => {
            return Err(mensaje_de(FalloJuego::CoordenadasInvalidas));
        },
    };
    let y = match parsear_usize(args[i2].as_str()) {
        Some(v) => v,
        None => {
            return Err(mensaje_de(FalloJuego::CoordenadasInvalidas));
        },
    };
    if x >= tamanio || y >= tamanio {
        return Err(mensaje_de(FalloJuego::CoordenadasInvalidas));
    }
    Ok(Punto { x, y })
}

/// True for the separator characters of a board line.
pub open spec fn es_blanco(c: char) -> bool {
    c == ' ' || c == '\t' || c == '\r'
}

/// The separator-delimited tokens of a line, in order: maximal runs of
/// non-separator characters.
pub open spec fn fichas_de(s: Seq<char>) -> Seq<Seq<char>>
    decreases s.len(),
{
    if s.len() == 0 {
        Seq::empty()
    } else if es_blanco(s.last()) {
        fichas_de(s.drop_last())
    } else {
        let resto = fichas_de(s.drop_last());
        if s.len() >= 2 && !es_blanco(s[s.len() - 2]) {
            resto.update(resto.len() - 1, resto.last().push(s.last()))
        } else {
            resto.push(seq![s.last()])
        }
    }
}

/// Splits one line of a board file into its cell tokens.
pub fn dividir_linea(linea: &str) -> (r: Vec<String>)
    ensures
        r.deep_view() == fichas_de(linea@),
{
    let n = linea.unicode_len();
    let mut terminados: Vec<String> = Vec::new();
    let mut inicio: usize = 0;
    let mut i: usize = 0;
    while i < n
        invariant
            i <= n,
            n == linea@.len(),
            inicio <= i,
            (inicio == i) == (i == 0 || es_blanco(linea@[i - 1])),
            inicio < i ==> fichas_de(linea@.take(i as int)) == terminados.deep_view().push(
                linea@.subrange(inicio as int, i as int),
            ),
            inicio == i ==> fichas_de(linea@.take(i as int)) == terminados.deep_view(),
        decreases n - i,
    {
        let c = linea.get_char(i);
        proof {
            assert(linea@.take(i + 1).drop_last() =~= linea@.take(i as int));
            assert(linea@.take(i + 1).last() == linea@[i as int]);
        }
        let es_separador = c == ' ' || c == '\t' || c == '\r';
        if es_separador {
            if inicio < i {
                let ficha = linea.substring_char(inicio, i).to_owned();
                let ghost antes = terminados.deep_view();
                terminados.push(ficha);
                proof {
                    assert(terminados.deep_view() =~~= antes.push(
                        linea@.subrange(inicio as int, i as int),
                    ));
                }
            }
            inicio = i + 1;
        } else {
            proof {
                if inicio < i {
                    assert(linea@.subrange(inicio as int, i as int).push(linea@[i as int]) =~=
                        linea@.subrange(inicio as int, i + 1));
                    assert(fichas_de(linea@.take(i + 1)) =~= terminados.deep_view().push(
                        linea@.subrange(inicio as int, i + 1),
                    ));
                } else {
                    assert(linea@.subrange(inicio as int, i + 1) =~= seq![linea@[i as int]]);
                }
            }
        }
        i += 1;
    }
    proof {
        assert(linea@.take(n as int) =~= linea@);
    }
    if inicio < n {
        let ficha = linea.substring_char(inicio, n).to_owned();
        let ghost antes = terminados.deep_view();
        terminados.push(ficha);
        proof {
            assert(terminados.deep_view() =~~= antes.push(
                linea@.subrange(inicio as int, n as int),
            ));
        }
    }
    terminados
}

/// A board row joined into one line, cells separated by single spaces.
pub open spec fn fila_unida(f: Seq<Seq<char>>) -> Seq<char>
    decreases f.len(),
{
    if f.len() == 0 {
        Seq::empty()
    } else if f.len() == 1 {
        f[0]
    } else {
        fila_unida(f.drop_last()) + seq![' '] + f.last()
    }
}

/// Joins a board row into one line, cells separated by single spaces.
pub fn unir_fila(fila: &Vec<String>) -> (r: String)
    ensures
        r@ == fila_unida(fila.deep_view()),
{
    let mut r = String::new();
    let mut i: usize = 0;
    while i < fila.len()
        invariant
            i <= fila@.len(),
            r@ == fila_unida(fila.deep_view().take(i as int)),
        decreases fila@.len() - i,
    {
        proof {
            assert(fila.deep_view().take(i + 1).drop_last() =~= fila.deep_view().take(i as int));
            assert(fila.deep_view().take(i + 1).last() == fila.deep_view()[i as int]);
            assert(fila.deep_view()[i as int] == fila@[i as int]@);
        }
        if i > 0 {
            r.append(" ");
            proof {
                reveal_strlit(" ");
                assert(r@ =~= fila_unida(fila.deep_view().take(i as int)) + seq![' ']);
            }
        }
        r.append(fila[i].as_str());
        proof {
            assert(r@ =~= fila_unida(fila.deep_view().take(i + 1)));
        }
        i += 1;
    }
    proof {
        assert(fila.deep_view().take(fila@.len() as int) =~= fila.deep_view());
    }
    r
}

/// The file name a path ends in: everything after the last `/`, or the
/// whole path when it has none.
pub open spec fn nombre_destino(s: Seq<char>) -> Seq<char>
    decreases s.len(),
{
    if s.len() == 0 {
        s
    } else if s.last() == '/' {
        Seq::empty()
    } else {
        nombre_destino(s.drop_last()).push(s.last())
    }
}

/// After the last `/` no further `/` occurs, so the name is the suffix that
/// starts there.
proof fn lema_nombre_sufijo(s: Seq<char>, corte: int)
    requires
        0 <= corte <= s.len(),
        forall|j: int| corte <= j < s.len() ==> s[j] != '/',
        corte == 0 || s[corte - 1] == '/',
    ensures
        nombre_destino(s) == s.subrange(corte, s.len() as int),
    decreases s.len(),
{
    if s.len() == 0 {
        assert(nombre_destino(s) =~= s.subrange(corte, s.len() as int));
    } else if s.last() == '/' {
        assert(corte == s.len());
        assert(nombre_destino(s) =~= s.subrange(corte, s.len() as int));
    } else {
        assert(corte < s.len());
        lema_nombre_sufijo(s.drop_last(), corte);
        assert(nombre_destino(s.drop_last()).push(s.last()) =~= s.subrange(
            corte,
            s.len() as int,
        ));
    }
}

/// The name of the file a path leads to: the part after the last `/`, or
/// the path itself when it has none.
pub fn extraer_archivo_destino(ruta: &String) -> (r: String)
    ensures
        r@ == nombre_destino(ruta@),
{
    let s = ruta.as_str();
    let n = s.unicode_len();
    let mut corte: usize = 0;
    let mut i: usize = 0;
    while i < n
        invariant
            i <= n,
            n == s@.len(),
            corte <= i,
            corte == 0 || s@[corte - 1] == '/',
            forall|j: int| corte <= j < i ==> s@[j] != '/',
        decreases n - i,
    {
        if s.get_char(i) == '/' {
            corte = i + 1;
        }
        i += 1;
    }
    proof {
        lema_nombre_sufijo(s@, corte as int);
    }
    let nombre = s.substring_char(corte, n);
    nombre.to_owned()
}

} // verus!
