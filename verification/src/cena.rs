use vstd::prelude::*;

verus! {

/// A key press that the gym scene reacts to; any other key is `Outra`.
#[derive(Clone, Copy, Debug, PartialEq, Eq, Structural)]
pub enum Tecla {
    Escape,
    P,
    H,
    L,
    C,
    R,
    X,
    N,
    Outra,
}

/// What the scene's main loop keeps between frames: whether polygons are
/// drawn filled (0) or as wireframes (1), the position of the lat pulldown
/// pull (0 released, down to -3 fully pulled), the flex of the left
/// person's arm and the size of the dumbbell (each in steps, one step per key
/// press) and whether the window is to close.
#[derive(Clone, Copy, Debug, PartialEq, Eq, Structural)]
pub struct EstadoCena {
    pub modo_poligono: i32,
    pub comando_pessoa1: i8,
    pub comando_pessoa2: i8,
    pub comando_halter: i8,
    pub fechar: bool,
}

/// The lowest position of the pull.
pub const PUXADA_MAXIMA: i8 = -3;

/// The scene's state when the window opens.
pub open spec fn inicial() -> EstadoCena {
    EstadoCena {
        modo_poligono: 0,
        comando_pessoa1: 0,
        comando_pessoa2: 8,
        comando_halter: 0,
        fechar: false,
    }
}

/// What a key press does to the scene: Escape asks to close the window, P
/// switches between filled and wireframe polygons, L pulls the bar one step
/// further (down to -3) and H lets it back one step (up to 0), C flexes the
/// left person's arm one step and R relaxes it one step, X expands the
/// dumbbell one step and N contracts it one step (the last four stop at the
/// ends of their `i8` range).
pub open spec fn apos_tecla(e: EstadoCena, t: Tecla) -> EstadoCena {
    match t {
        Tecla::Escape => EstadoCena { fechar: true, ..e },
        Tecla::P => EstadoCena { modo_poligono: e.modo_poligono ^ 1, ..e },
        Tecla::H => if e.comando_pessoa1 < 0 {
            EstadoCena { comando_pessoa1: (e.comando_pessoa1 + 1) as i8, ..e }
        } else {
            e
        },
        Tecla::L => if e.comando_pessoa1 > PUXADA_MAXIMA {
            EstadoCena { comando_pessoa1: (e.comando_pessoa1 - 1) as i8, ..e }
        } else {
            e
        },
        Tecla::C => if e.comando_pessoa2 < i8::MAX {
            EstadoCena { comando_pessoa2: (e.comando_pessoa2 + 1) as i8, ..e }
        } else {
            e
        },
        Tecla::R => if e.comando_pessoa2 > i8::MIN {
            EstadoCena { comando_pessoa2: (e.comando_pessoa2 - 1) as i8, ..e }
        } else {
            e
        },
        Tecla::X => if e.comando_halter < i8::MAX {
            EstadoCena { comando_halter: (e.comando_halter + 1) as i8, ..e }
        } else {
            e
        },
        Tecla::N => if e.comando_halter > i8::MIN {
            EstadoCena { comando_halter: (e.comando_halter - 1) as i8, ..e }
        } else {
            e
        },
        Tecla::Outra => e,
    }
}

/// The states that the scene can be in: the mode is filled or wireframe and
/// the pull lies between -3 and 0.
pub open spec fn estado_valido(e: EstadoCena) -> bool {
    &&& (e.modo_poligono == 0 || e.modo_poligono == 1)
    &&& PUXADA_MAXIMA <= e.comando_pessoa1 <= 0
}

/// The scene's state when the window opens.
pub fn estado_inicial() -> (r: EstadoCena)
    ensures
        r == inicial(),
        estado_valido(r),
{
    EstadoCena {
        modo_poligono: 0,
        comando_pessoa1: 0,
        comando_pessoa2: 8,
        comando_halter: 0,
        fechar: false,
    }
}

/// Applies one key press to the scene's state.
pub fn trata_tecla(e: EstadoCena, t: Tecla) -> (r: EstadoCena)
    ensures
        r == apos_tecla(e, t),
{
    match t {
        Tecla::Escape => EstadoCena { fechar: true, ..e },
        Tecla::P => EstadoCena { modo_poligono: e.modo_poligono ^ 1, ..e },
        Tecla::H => {
            if e.comando_pessoa1 < 0 {
                EstadoCena { comando_pessoa1: e.comando_pessoa1 + 1, ..e }
            } else {
                e
            }
        },
        Tecla::L => {
            if e.comando_pessoa1 > PUXADA_MAXIMA {
                EstadoCena { comando_pessoa1: e.comando_pessoa1 - 1, ..e }
            } else {
                e
            }
        },
        Tecla::C => {
            if e.comando_pessoa2 < i8::MAX {
                EstadoCena { comando_pessoa2: e.comando_pessoa2 + 1, ..e }
            } else {
                e
            }
        },
        Tecla::R => {
            if e.comando_pessoa2 > i8::MIN {
                EstadoCena { comando_pessoa2: e.comando_pessoa2 - 1, ..e }
            } else {
                e
            }
        },
        Tecla::X => {
            if e.comando_halter < i8::MAX {
                EstadoCena { comando_halter: e.comando_halter + 1, ..e }
            } else {
                e
            }
        },
        Tecla::N => {
            if e.comando_halter > i8::MIN {
                EstadoCena { comando_halter: e.comando_halter - 1, ..e }
            } else {
                e
            }
        },
        Tecla::Outra => e,
    }
}

/// Every key press keeps the scene in a valid state.
pub proof fn lema_tecla_preserva(e: EstadoCena, t: Tecla)
    requires
        estado_valido(e),
    ensures
        estado_valido(apos_tecla(e, t)),
{
    if t == Tecla::P {
        assert(0i32 ^ 1i32 == 1i32) by (bit_vector);
        assert(1i32 ^ 1i32 == 0i32) by (bit_vector);
    }
}

/// Pressing P twice gives the state back.
pub proof fn lema_p_duas_vezes(e: EstadoCena)
    ensures
        apos_tecla(apos_tecla(e, Tecla::P), Tecla::P) == e,
{
    let m = e.modo_poligono;
    assert((m ^ 1i32) ^ 1i32 == m) by (bit_vector);
}

/// Letting the bar back undoes one step of pulling, wherever the pull could
/// still go down.
pub proof fn lema_h_desfaz_l(e: EstadoCena)
    requires
        e.comando_pessoa1 > PUXADA_MAXIMA,
        e.comando_pessoa1 <= 0,
    ensures
        apos_tecla(apos_tecla(e, Tecla::L), Tecla::H) == e,
{
}

/// Relaxing undoes a flex, and contracting the dumbbell undoes an
/// expansion, wherever the flex or expansion moved the state.
pub proof fn lema_r_desfaz_c_e_n_desfaz_x(e: EstadoCena)
    requires
        e.comando_pessoa2 < i8::MAX,
        e.comando_halter < i8::MAX,
    ensures
        apos_tecla(apos_tecla(e, Tecla::C), Tecla::R) == e,
        apos_tecla(apos_tecla(e, Tecla::X), Tecla::N) == e,
{
}

/// A key the scene does not use leaves the state as it was, and every key
/// changes at most the one thing it drives: P only the polygon mode, L and H
/// only the pull, C and R only the arm, X and N only the dumbbell, Escape
/// only the request to close. On a valid state P flips the mode between
/// filled and wireframe.
pub proof fn lema_tecla_muda_so_o_seu_campo(e: EstadoCena, t: Tecla)
    ensures
        apos_tecla(e, Tecla::Outra) == e,
        t != Tecla::P ==> apos_tecla(e, t).modo_poligono == e.modo_poligono,
        t != Tecla::L && t != Tecla::H ==> apos_tecla(e, t).comando_pessoa1 == e.comando_pessoa1,
        t != Tecla::C && t != Tecla::R ==> apos_tecla(e, t).comando_pessoa2 == e.comando_pessoa2,
        t != Tecla::X && t != Tecla::N ==> apos_tecla(e, t).comando_halter == e.comando_halter,
        t != Tecla::Escape ==> apos_tecla(e, t).fechar == e.fechar,
        estado_valido(e) ==> apos_tecla(e, Tecla::P).modo_poligono == 1 - e.modo_poligono,
{
    assert(0i32 ^ 1i32 == 1i32) by (bit_vector);
    assert(1i32 ^ 1i32 == 0i32) by (bit_vector);
}

/// Only Escape asks to close, and once asked the request stays.
pub proof fn lema_fechar(e: EstadoCena, t: Tecla)
    ensures
        apos_tecla(e, t).fechar == (e.fechar || t == Tecla::Escape),
{
}

/// The concatenation of a list of lists.
pub open spec fn concatenacao<T>(partes: Seq<Seq<T>>) -> Seq<T>
    decreases partes.len(),
{
    if partes.len() == 0 {
        Seq::empty()
    } else {
        concatenacao(partes.drop_last()) + partes.last()
    }
}

/// Where each part starts in the concatenation: the sum of the lengths of
/// the parts before it.
pub open spec fn inicio_da_parte<T>(partes: Seq<Seq<T>>, i: int) -> nat {
    concatenacao(partes.subrange(0, i)).len()
}

/// Lays the scene's objects out one after the other in a single vertex list,
/// as the draw calls expect: returns the list and, for each object, the
/// index at which its vertices start.
pub fn monta_lista_de_vertices<T: Copy>(partes: &Vec<Vec<T>>) -> (r: (Vec<T>, Vec<usize>))
    ensures
        r.0@ == concatenacao(partes@.map_values(|p: Vec<T>| p@)),
        r.1.len() == partes.len(),
        forall|i: int|
            0 <= i < partes.len() ==> #[trigger] r.1@[i] == inicio_da_parte(
                partes@.map_values(|p: Vec<T>| p@),
                i,
            ),
{
    let ghost vistas = partes@.map_values(|p: Vec<T>| p@);
    let mut lista: Vec<T> = Vec::new();
    let mut inicios: Vec<usize> = Vec::new();
    for k in 0..partes.len()
        invariant
            vistas == partes@.map_values(|p: Vec<T>| p@),
            lista@ == concatenacao(vistas.subrange(0, k as int)),
            inicios@.len() == k,
            forall|i: int| 0 <= i < k ==> #[trigger] inicios@[i] == inicio_da_parte(vistas, i),
    {
        inicios.push(lista.len());
        let parte = &partes[k];
        let ghost base = lista@;
        for j in 0..parte.len()
            invariant
                lista@ == base + parte@.subrange(0, j as int),
        {
            lista.push(parte[j]);
            assert(parte@.subrange(0, j + 1) =~= parte@.subrange(0, j as int).push(parte@[j as int]));
        }
        assert(parte@.subrange(0, parte@.len() as int) =~= parte@);
        assert(vistas.subrange(0, k + 1).drop_last() =~= vistas.subrange(0, k as int));
        assert(vistas[k as int] == parte@);
    }
    assert(vistas.subrange(0, partes.len() as int) =~= vistas);
    (lista, inicios)
}

/// In the laid-out list, entry `k` of object `i` sits `k` places after the
/// start of object `i`.
pub proof fn lema_parte_no_inicio<T>(partes: Seq<Seq<T>>, i: int, k: int)
    requires
        0 <= i < partes.len(),
        0 <= k < partes[i].len(),
    ensures
        inicio_da_parte(partes, i) + k < concatenacao(partes).len(),
        concatenacao(partes)[inicio_da_parte(partes, i) + k] == partes[i][k],
    decreases partes.len(),
{
    if i == partes.len() - 1 {
        assert(partes.subrange(0, i) =~= partes.drop_last());
    } else {
        let p = partes.drop_last();
        assert(p[i] == partes[i]);
        assert(p.subrange(0, i) =~= partes.subrange(0, i));
        lema_parte_no_inicio(p, i, k);
    }
}

} // verus!
