//! O recorte do argumento: do par de posições que o ponteiro escolhe ao valor que a
//! ferramenta recebe.
//!
//! O ponteiro fino acerta o trecho e às vezes **escorrega dentro dele** —
//! `{"comando":"g"}` para "ipconfig". O recorte é determinístico e roda depois da
//! decisão: estende até as fronteiras de palavra, tira parênteses que envolvem o
//! valor inteiro e a pontuação que grudou nele. Sobre um recorte já correto, é a
//! identidade.
use vstd::prelude::*;
use vstd::utf8::{encode_scalar, encode_utf8};
use crate::texto::{aparado, aparar, caracteres, de_utf8_com_perdas, fatia, string_de, utf8_com_perdas};

verus! {

/// Espaço, tabulação ou quebra de linha, em bytes.
pub open spec fn e_espaco_byte(b: u8) -> bool {
    b == 32 || b == 9 || b == 10 || b == 13
}

/// Anda para a esquerda enquanto o byte anterior não é espaço.
pub open spec fn esquerda(b: Seq<u8>, i: int) -> int
    decreases i,
{
    if i > 0 && !e_espaco_byte(b[i - 1]) {
        esquerda(b, i - 1)
    } else {
        i
    }
}

/// Anda para a direita enquanto o byte seguinte não é espaço.
pub open spec fn direita(b: Seq<u8>, f: int) -> int
    decreases b.len() - f,
{
    if f + 1 < b.len() && !e_espaco_byte(b[f + 1]) {
        direita(b, f + 1)
    } else {
        f
    }
}

/// Estende o recorte `[bi, bf]` até as fronteiras de palavra que o contêm.
pub fn encaixar_na_palavra(bytes: &[u8], bi: usize, bf: usize) -> (r: (usize, usize))
    requires
        bi < bytes@.len(),
        bf < bytes@.len(),
    ensures
        r.0 == esquerda(bytes@, bi as int),
        r.1 == direita(bytes@, bf as int),
        r.0 <= bi,
        bf <= r.1 < bytes@.len(),
{
    let mut i = bi;
    while i > 0 && !(bytes[i - 1] == 32 || bytes[i - 1] == 9 || bytes[i - 1] == 10 || bytes[i
        - 1] == 13)
        invariant
            i <= bi < bytes@.len(),
            esquerda(bytes@, bi as int) == esquerda(bytes@, i as int),
        decreases i,
    {
        i = i - 1;
    }
    let mut f = bf;
    while bytes.len() - f > 1 && !(bytes[f + 1] == 32 || bytes[f + 1] == 9 || bytes[f + 1] == 10
        || bytes[f + 1] == 13)
        invariant
            bf <= f < bytes@.len(),
            direita(bytes@, bf as int) == direita(bytes@, f as int),
        decreases bytes.len() - f,
    {
        f = f + 1;
    }
    (i, f)
}

/// O nível de parênteses ao fim de `m`, ou `None` se algum `)` fecha o que não
/// abriu.
pub open spec fn nivel_final(m: Seq<char>) -> Option<nat>
    decreases m.len(),
{
    if m.len() == 0 {
        Some(0)
    } else {
        match nivel_final(m.drop_last()) {
            None => None,
            Some(n) => if m.last() == '(' {
                Some(n + 1)
            } else if m.last() == ')' {
                if n == 0 {
                    None
                } else {
                    Some((n - 1) as nat)
                }
            } else {
                Some(n)
            },
        }
    }
}

/// Sem os parênteses que envolvem o valor inteiro: abre no primeiro caractere,
/// fecha no último, e o miolo fecha sozinho.
pub open spec fn descascado(s: Seq<char>) -> Seq<char>
    decreases s.len(),
{
    if s.len() >= 3 && s[0] == '(' && s.last() == ')' && nivel_final(
        s.subrange(1, s.len() - 1),
    ) == Some(0nat) {
        descascado(s.subrange(1, s.len() - 1))
    } else {
        s
    }
}

fn equilibrado(m: &[char]) -> (r: bool)
    ensures
        r == (nivel_final(m@) == Some(0nat)),
{
    let mut nivel: usize = 0;
    let mut i: usize = 0;
    assert(m@.take(0) =~= Seq::<char>::empty());
    while i < m.len()
        invariant
            i <= m@.len(),
            nivel <= i,
            nivel_final(m@.take(i as int)) == Some(nivel as nat),
        decreases m.len() - i,
    {
        assert(m@.take(i + 1).drop_last() =~= m@.take(i as int));
        if m[i] == '(' {
            nivel = nivel + 1;
        } else if m[i] == ')' {
            if nivel == 0 {
                proof {
                    lema_nivel_estraga(m@, i as int + 1);
                }
                return false;
            }
            nivel = nivel - 1;
        }
        i = i + 1;
    }
    assert(m@.take(m@.len() as int) =~= m@);
    nivel == 0
}

proof fn lema_nivel_estraga(m: Seq<char>, j: int)
    requires
        0 <= j <= m.len(),
        nivel_final(m.take(j)) is None,
    ensures
        nivel_final(m) is None,
    decreases m.len(),
{
    if j == m.len() {
        assert(m.take(j) =~= m);
    } else {
        assert(m.drop_last().take(j) =~= m.take(j));
        lema_nivel_estraga(m.drop_last(), j);
    }
}

/// Tira parênteses que envolvem o valor inteiro, sem tocar nos que fazem parte dele.
pub fn descascar_parenteses(s: &str) -> (r: String)
    ensures
        r@ == descascado(s@),
{
    let mut atual = caracteres(s);
    assert(descascado(s@) == descascado(atual@));
    loop
        invariant
            descascado(s@) == descascado(atual@),
        decreases atual@.len(),
    {
        if atual.len() < 3 || atual[0] != '(' || atual[atual.len() - 1] != ')' {
            return string_de(atual.as_slice());
        }
        let miolo = fatia(atual.as_slice(), 1, atual.len() - 1);
        if !equilibrado(miolo.as_slice()) {
            return string_de(atual.as_slice());
        }
        atual = miolo;
    }
}

/// Quantos bytes o caractere ocupa em UTF-8.
pub open spec fn largura(c: char) -> nat {
    let v = c as u32;
    if v <= 0x7F {
        1
    } else if v <= 0x7FF {
        2
    } else if v <= 0xFFFF {
        3
    } else {
        4
    }
}

proof fn lema_largura(c: char)
    ensures
        encode_scalar(c as u32).len() == largura(c),
{
    vstd::utf8::char_is_scalar(c);
}

proof fn lema_utf8_empurrar(p: Seq<char>, c: char)
    ensures
        encode_utf8(p.push(c)).len() == encode_utf8(p).len() + largura(c),
    decreases p.len(),
{
    lema_largura(c);
    if p.len() == 0 {
        assert(p.push(c) =~= seq![c]);
        assert(seq![c].drop_first() =~= Seq::<char>::empty());
        assert(encode_utf8(Seq::<char>::empty()) =~= Seq::<u8>::empty());
        assert(seq![c][0] == c);
        assert(encode_utf8(p) =~= Seq::<u8>::empty());
    } else {
        assert(p.push(c).drop_first() =~= p.drop_first().push(c));
        assert(p.push(c)[0] == p[0]);
        lema_utf8_empurrar(p.drop_first(), c);
    }
}

/// Pontuação que gruda no fim do valor e não faz parte dele.
pub open spec fn pontuacao_final(c: char) -> bool {
    c == ',' || c == ';' || c == '?' || c == '!' || c == '.'
}

/// Pontuação que gruda no começo. O `.` de abertura fica: `.gitignore` é nome de
/// arquivo.
pub open spec fn pontuacao_inicial(c: char) -> bool {
    c == ',' || c == ';' || c == '?' || c == '!' || c == ':'
}

/// Onde termina o valor sem a pontuação final. O `:` só sai quando o que sobra antes
/// dele tem mais de dois bytes: `C:` é uma letra de unidade.
pub open spec fn fim_sem_pontuacao(t: Seq<char>, k: int) -> int
    decreases k,
{
    if k > 0 && (pontuacao_final(t[k - 1]) || (t[k - 1] == ':' && encode_utf8(t.take(k)).len()
        > 2)) {
        fim_sem_pontuacao(t, k - 1)
    } else {
        k
    }
}

/// Onde começa o valor sem a pontuação inicial.
pub open spec fn ini_sem_pontuacao(t: Seq<char>, i: int, fim: int) -> int
    decreases fim - i,
{
    if i < fim && pontuacao_inicial(t[i]) {
        ini_sem_pontuacao(t, i + 1, fim)
    } else {
        i
    }
}

pub open spec fn sem_pontuacao(s: Seq<char>) -> Seq<char> {
    let t = descascado(s);
    let fim = fim_sem_pontuacao(t, t.len() as int);
    let ini = ini_sem_pontuacao(t, 0, fim);
    aparado(t.subrange(ini, fim))
}

fn largura_exec(c: char) -> (r: usize)
    ensures
        r == largura(c),
{
    let v = c as u32;
    if v <= 0x7F {
        1
    } else if v <= 0x7FF {
        2
    } else if v <= 0xFFFF {
        3
    } else {
        4
    }
}

/// Tira a pontuação que grudou na palavra mas não faz parte do valor, e os
/// parênteses que envolvem o valor inteiro.
pub fn aparar_pontuacao(s: &str) -> (r: String)
    ensures
        r@ == sem_pontuacao(s@),
{
    let d = descascar_parenteses(s);
    let t = caracteres(d.as_str());
    let mut nbytes: usize = d.as_str().as_bytes().len();
    let mut fim: usize = t.len();
    assert(t@.take(fim as int) =~= t@);
    while fim > 0
        invariant
            fim <= t@.len(),
            t@ == descascado(s@),
            nbytes == encode_utf8(t@.take(fim as int)).len(),
            fim_sem_pontuacao(t@, t@.len() as int) == fim_sem_pontuacao(t@, fim as int),
        ensures
            fim <= t@.len(),
            t@ == descascado(s@),
            fim_sem_pontuacao(t@, t@.len() as int) == fim,
        decreases fim,
    {
        let c = t[fim - 1];
        let apara = if c == ',' || c == ';' || c == '?' || c == '!' || c == '.' {
            true
        } else if c == ':' {
            nbytes > 2
        } else {
            false
        };
        if !apara {
            break;
        }
        proof {
            assert(t@.take(fim as int) =~= t@.take(fim - 1).push(c));
            lema_utf8_empurrar(t@.take(fim - 1), c);
        }
        let l = largura_exec(c);
        nbytes = nbytes - l;
        fim = fim - 1;
    }
    let mut ini: usize = 0;
    while ini < fim && (t[ini] == ',' || t[ini] == ';' || t[ini] == '?' || t[ini] == '!' || t[ini]
        == ':')
        invariant
            ini <= fim <= t@.len(),
            ini_sem_pontuacao(t@, 0, fim as int) == ini_sem_pontuacao(t@, ini as int, fim as int),
        decreases fim - ini,
    {
        ini = ini + 1;
    }
    let meio = fatia(t.as_slice(), ini, fim);
    let a = aparar(meio.as_slice());
    string_de(a.as_slice())
}

/// O recorte `[bi, bf]` dos bytes do pedido, como o valor que a ferramenta recebe.
pub open spec fn recorte_de(bytes: Seq<u8>, bi: int, bf: int) -> Seq<char> {
    if bytes.len() == 0 {
        seq![]
    } else {
        let bi2 = if bi < bytes.len() - 1 {
            bi
        } else {
            bytes.len() - 1
        };
        let bf1 = if bf < bytes.len() - 1 {
            bf
        } else {
            bytes.len() - 1
        };
        let bf2 = if bf1 > bi2 {
            bf1
        } else {
            bi2
        };
        let i = esquerda(bytes, bi2);
        let f = direita(bytes, bf2);
        sem_pontuacao(aparado(utf8_com_perdas(bytes.subrange(i, f + 1))))
    }
}

/// O valor que a ferramenta recebe, a partir das posições `[bi, bf]` (inclusive) que
/// o ponteiro escolheu nos bytes do pedido: posições fora do pedido vão para o
/// último byte, o recorte se estende até as fronteiras de palavra, e sai a
/// pontuação que grudou.
pub fn recortar(bytes: &[u8], bi: usize, bf: usize) -> (r: String)
    ensures
        r@ == recorte_de(bytes@, bi as int, bf as int),
{
    if bytes.len() == 0 {
        return String::new();
    }
    let bi2 = if bi < bytes.len() - 1 {
        bi
    } else {
        bytes.len() - 1
    };
    let bf1 = if bf < bytes.len() - 1 {
        bf
    } else {
        bytes.len() - 1
    };
    let bf2 = if bf1 > bi2 {
        bf1
    } else {
        bi2
    };
    let (i, f) = encaixar_na_palavra(bytes, bi2, bf2);
    let mut pedaco: Vec<u8> = Vec::new();
    let mut k: usize = i;
    while k <= f
        invariant
            i <= k <= f + 1,
            f < bytes@.len(),
            pedaco@ == bytes@.subrange(i as int, k as int),
        decreases f + 1 - k,
    {
        pedaco.push(bytes[k]);
        k = k + 1;
        assert(pedaco@ =~= bytes@.subrange(i as int, k as int));
    }
    let bruto = de_utf8_com_perdas(pedaco.as_slice());
    let a = crate::texto::aparar_str(bruto.as_str());
    let s = string_de(a.as_slice());
    aparar_pontuacao(s.as_str())
}

} // verus!
