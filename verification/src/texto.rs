//! Operações sobre texto, vistas como sequências de caracteres.
//!
//! Tudo aqui trabalha sobre `Seq<char>`: um `&str` entra pela sua visão de
//! caracteres e um `String` sai com a visão que o contrato diz.
use vstd::prelude::*;

verus! {

// ───────────────────────────── entrada e saída de `String`

/// Os caracteres de um `&str`, um por posição.
pub fn caracteres(s: &str) -> (v: Vec<char>)
    ensures
        v@ == s@,
{
    let mut v: Vec<char> = Vec::new();
    for c in it: s.chars()
        invariant
            v@ == it.seq().take(it.index() as int),
    {
        v.push(c);
    }
    v
}

/// `String::push`: acrescenta um caractere no fim.
#[verifier::external_body]
pub(crate) fn empurrar(s: &mut String, c: char)
    ensures
        final(s)@ == old(s)@.push(c),
{
    s.push(c);
}

/// Um `String` com exatamente estes caracteres.
pub fn string_de(v: &[char]) -> (s: String)
    ensures
        s@ == v@,
{
    let mut s = String::new();
    let mut i: usize = 0;
    while i < v.len()
        invariant
            i <= v.len(),
            s@ == v@.take(i as int),
        decreases v.len() - i,
    {
        empurrar(&mut s, v[i]);
        i = i + 1;
        assert(s@ == v@.take(i as int));
    }
    assert(v@.take(v.len() as int) == v@);
    s
}

/// Acrescenta todos os caracteres de `v` ao fim de `s`.
pub fn acrescentar(s: &mut String, v: &[char])
    ensures
        final(s)@ == old(s)@ + v@,
{
    let ghost ini = s@;
    let mut i: usize = 0;
    while i < v.len()
        invariant
            i <= v.len(),
            s@ == ini + v@.take(i as int),
        decreases v.len() - i,
    {
        empurrar(s, v[i]);
        i = i + 1;
        assert(s@ == ini + v@.take(i as int));
    }
    assert(v@.take(v.len() as int) == v@);
}

/// Acrescenta todos os caracteres de `v` ao fim do vetor `r`.
pub fn acrescentar_vec(r: &mut Vec<char>, v: &[char])
    ensures
        final(r)@ == old(r)@ + v@,
{
    let ghost ini = r@;
    let mut i: usize = 0;
    while i < v.len()
        invariant
            i <= v.len(),
            r@ == ini + v@.take(i as int),
        decreases v.len() - i,
    {
        r.push(v[i]);
        i = i + 1;
        assert(r@ =~= ini + v@.take(i as int));
    }
    assert(v@.take(v.len() as int) == v@);
}

/// Acrescenta um `&str` ao fim de `s`.
pub fn acrescentar_str(s: &mut String, t: &str)
    ensures
        final(s)@ == old(s)@ + t@,
{
    let v = caracteres(t);
    acrescentar(s, v.as_slice());
}

/// Copia um `&str` para um `String` novo.
pub fn copiar(t: &str) -> (s: String)
    ensures
        s@ == t@,
{
    let v = caracteres(t);
    string_de(v.as_slice())
}

/// Os caracteres de um `String`.
pub fn caracteres_de(s: &String) -> (v: Vec<char>)
    ensures
        v@ == s@,
{
    caracteres(s.as_str())
}

// ───────────────────────────── espaço em branco

/// `char::is_whitespace`: a propriedade Unicode `White_Space`.
pub open spec fn e_branco(c: char) -> bool {
    ||| ('\u{9}' <= c && c <= '\u{d}')
    ||| c == ' '
    ||| c == '\u{85}'
    ||| c == '\u{a0}'
    ||| c == '\u{1680}'
    ||| ('\u{2000}' <= c && c <= '\u{200a}')
    ||| c == '\u{2028}'
    ||| c == '\u{2029}'
    ||| c == '\u{202f}'
    ||| c == '\u{205f}'
    ||| c == '\u{3000}'
}

pub fn branco(c: char) -> (r: bool)
    ensures
        r == e_branco(c),
{
    ('\u{9}' <= c && c <= '\u{d}') || c == ' ' || c == '\u{85}' || c == '\u{a0}' || c
        == '\u{1680}' || ('\u{2000}' <= c && c <= '\u{200a}') || c == '\u{2028}' || c
        == '\u{2029}' || c == '\u{202f}' || c == '\u{205f}' || c == '\u{3000}'
}

/// Sem o espaço em branco do começo.
pub open spec fn sem_branco_inicial(s: Seq<char>) -> Seq<char>
    decreases s.len(),
{
    if s.len() > 0 && e_branco(s[0]) {
        sem_branco_inicial(s.drop_first())
    } else {
        s
    }
}

/// Sem o espaço em branco do fim.
pub open spec fn sem_branco_final(s: Seq<char>) -> Seq<char>
    decreases s.len(),
{
    if s.len() > 0 && e_branco(s.last()) {
        sem_branco_final(s.drop_last())
    } else {
        s
    }
}

/// `str::trim`.
pub open spec fn aparado(s: Seq<char>) -> Seq<char> {
    sem_branco_final(sem_branco_inicial(s))
}

proof fn lema_inicial_passo(s: Seq<char>, i: int)
    requires
        0 <= i < s.len(),
        e_branco(s[i]),
    ensures
        sem_branco_inicial(s.subrange(i, s.len() as int)) == sem_branco_inicial(
            s.subrange(i + 1, s.len() as int),
        ),
{
    assert(s.subrange(i, s.len() as int).drop_first() =~= s.subrange(i + 1, s.len() as int));
}

proof fn lema_final_passo(s: Seq<char>, j: int)
    requires
        0 < j <= s.len(),
        e_branco(s[j - 1]),
    ensures
        sem_branco_final(s.subrange(0, j)) == sem_branco_final(s.subrange(0, j - 1)),
{
    assert(s.subrange(0, j).drop_last() =~= s.subrange(0, j - 1));
}

/// Onde começa e termina o texto sem o branco das pontas.
pub fn limites_aparados(s: &[char]) -> (r: (usize, usize))
    ensures
        r.0 <= r.1 <= s.len(),
        s@.subrange(r.0 as int, r.1 as int) == aparado(s@),
{
    let n = s.len();
    let mut i: usize = 0;
    assert(s@.subrange(0, n as int) =~= s@);
    while i < n && branco(s[i])
        invariant
            i <= n,
            n == s.len(),
            sem_branco_inicial(s@) == sem_branco_inicial(s@.subrange(i as int, n as int)),
        decreases n - i,
    {
        proof {
            lema_inicial_passo(s@, i as int);
        }
        i = i + 1;
    }
    assert(s@.subrange(0, n as int) =~= s@);
    let ghost t = s@.subrange(i as int, n as int);
    assert(sem_branco_inicial(s@) == t);
    let mut j: usize = n;
    assert(t.subrange(0, (n - i) as int) =~= t);
    while j > i && branco(s[j - 1])
        invariant
            i <= j <= n,
            n == s.len(),
            t == s@.subrange(i as int, n as int),
            sem_branco_final(t) == sem_branco_final(t.subrange(0, j - i)),
        decreases j,
    {
        proof {
            assert(t[j - i - 1] == s@[j - 1]);
            lema_final_passo(t, (j - i) as int);
        }
        j = j - 1;
    }
    assert(t.subrange(0, (n - i) as int) =~= t);
    assert(t.subrange(0, j - i) =~= s@.subrange(i as int, j as int));
    (i, j)
}

/// `str::trim`, devolvendo os caracteres.
pub fn aparar(s: &[char]) -> (r: Vec<char>)
    ensures
        r@ == aparado(s@),
{
    let (i, j) = limites_aparados(s);
    fatia(s, i, j)
}

/// `str::trim` sobre um `&str`.
pub fn aparar_str(s: &str) -> (r: Vec<char>)
    ensures
        r@ == aparado(s@),
{
    let v = caracteres(s);
    aparar(v.as_slice())
}

// ───────────────────────────── fatias e busca

/// Cópia de `s[i..j]`.
pub fn fatia(s: &[char], i: usize, j: usize) -> (r: Vec<char>)
    requires
        i <= j <= s.len(),
    ensures
        r@ == s@.subrange(i as int, j as int),
{
    let mut r: Vec<char> = Vec::new();
    let mut k: usize = i;
    while k < j
        invariant
            i <= k <= j,
            j <= s.len(),
            r@ == s@.subrange(i as int, k as int),
        decreases j - k,
    {
        r.push(s[k]);
        k = k + 1;
        assert(r@ =~= s@.subrange(i as int, k as int));
    }
    r
}

/// `n` aparece em `h` a partir da posição `i`.
pub open spec fn ocorre_em(h: Seq<char>, n: Seq<char>, i: int) -> bool {
    0 <= i && i + n.len() <= h.len() && h.subrange(i, i + n.len()) == n
}

/// `h.contains(n)`.
pub open spec fn contem(h: Seq<char>, n: Seq<char>) -> bool {
    exists|i: int| ocorre_em(h, n, i)
}

/// `h.starts_with(n)`.
pub open spec fn comeca_com(h: Seq<char>, n: Seq<char>) -> bool {
    n.len() <= h.len() && h.subrange(0, n.len() as int) == n
}

/// `h.ends_with(n)`.
pub open spec fn termina_com(h: Seq<char>, n: Seq<char>) -> bool {
    n.len() <= h.len() && h.subrange(h.len() - n.len(), h.len() as int) == n
}

/// `h.find(n)`, em posições de caractere: a primeira ocorrência.
pub open spec fn primeira(h: Seq<char>, n: Seq<char>, i: int) -> bool {
    ocorre_em(h, n, i) && forall|k: int| 0 <= k < i ==> !ocorre_em(h, n, k)
}

/// `n` aparece em `h` na posição `i`?
pub fn ocorre_aqui(h: &[char], n: &[char], i: usize) -> (r: bool)
    ensures
        r == ocorre_em(h@, n@, i as int),
{
    if i > h.len() || n.len() > h.len() - i {
        return false;
    }
    let mut k: usize = 0;
    while k < n.len()
        invariant
            k <= n.len(),
            i + n.len() <= h.len(),
            forall|m: int| 0 <= m < k ==> h@[i + m] == n@[m],
        decreases n.len() - k,
    {
        if h[i + k] != n[k] {
            assert(h@.subrange(i as int, i + n.len())[k as int] != n@[k as int]);
            return false;
        }
        k = k + 1;
    }
    assert(h@.subrange(i as int, i + n.len()) =~= n@);
    true
}

/// A primeira posição `>= de` em que `n` aparece em `h`.
pub fn achar_desde(h: &[char], n: &[char], de: usize) -> (r: Option<usize>)
    ensures
        match r {
            Some(i) => de <= i && ocorre_em(h@, n@, i as int) && forall|k: int|
                de <= k < i ==> !ocorre_em(h@, n@, k),
            None => forall|k: int| de <= k ==> !ocorre_em(h@, n@, k),
        },
{
    if n.len() > h.len() || de > h.len() - n.len() {
        return None;
    }
    let ult = h.len() - n.len();
    let mut i: usize = de;
    loop
        invariant
            de <= i <= ult,
            ult == h.len() - n.len(),
            forall|k: int| de <= k < i ==> !ocorre_em(h@, n@, k),
        decreases ult - i,
    {
        if ocorre_aqui(h, n, i) {
            return Some(i);
        }
        if i == ult {
            return None;
        }
        i = i + 1;
    }
}

/// `h.find(n)`.
pub fn achar(h: &[char], n: &[char]) -> (r: Option<usize>)
    ensures
        match r {
            Some(i) => primeira(h@, n@, i as int),
            None => !contem(h@, n@),
        },
{
    achar_desde(h, n, 0)
}

/// `h.contains(n)`.
pub fn contem_exec(h: &[char], n: &[char]) -> (r: bool)
    ensures
        r == contem(h@, n@),
{
    match achar(h, n) {
        Some(_) => true,
        None => false,
    }
}

/// `h.starts_with(n)`.
pub fn comeca(h: &[char], n: &[char]) -> (r: bool)
    ensures
        r == comeca_com(h@, n@),
{
    ocorre_aqui(h, n, 0)
}

/// `h.ends_with(n)`.
pub fn termina(h: &[char], n: &[char]) -> (r: bool)
    ensures
        r == termina_com(h@, n@),
{
    if n.len() > h.len() {
        false
    } else {
        ocorre_aqui(h, n, h.len() - n.len())
    }
}

/// `c` aparece em `s`?
pub fn tem_char(s: &[char], c: char) -> (r: bool)
    ensures
        r == s@.contains(c),
{
    let mut i: usize = 0;
    while i < s.len()
        invariant
            i <= s.len(),
            forall|k: int| 0 <= k < i ==> s@[k] != c,
        decreases s.len() - i,
    {
        if s[i] == c {
            return true;
        }
        i = i + 1;
    }
    false
}

/// Duas sequências iguais?
pub fn iguais(a: &[char], b: &[char]) -> (r: bool)
    ensures
        r == (a@ == b@),
{
    if a.len() != b.len() {
        return false;
    }
    let r = ocorre_aqui(a, b, 0);
    proof {
        assert(a@.subrange(0, b@.len() as int) =~= a@);
    }
    r
}

/// Um texto é igual a este literal?
pub fn igual_str(a: &[char], b: &str) -> (r: bool)
    ensures
        r == (a@ == b@),
{
    let v = caracteres(b);
    iguais(a, v.as_slice())
}

// ───────────────────────────── caixa

/// `str::to_lowercase`, em toda a tabela Unicode.
pub uninterp spec fn minusculas(s: Seq<char>) -> Seq<char>;

/// A caixa baixa ASCII: `A`..`Z` viram `a`..`z`, o resto fica.
pub open spec fn caixa_baixa_ascii(c: char) -> char {
    if 'A' <= c && c <= 'Z' {
        ((c as u32) + 32) as char
    } else {
        c
    }
}

/// Todo caractere do texto é ASCII.
pub open spec fn so_ascii(s: Seq<char>) -> bool {
    forall|i: int| 0 <= i < s.len() ==> (#[trigger] s[i] as u32) < 128
}

/// `str::to_lowercase`. O resultado depende só do texto, pela tabela de caixa do
/// Unicode que acompanha a biblioteca padrão; num texto só de ASCII, as letras
/// `A`..`Z` viram `a`..`z` e o resto fica como está. Do que a tabela faz fora do
/// ASCII nada é dito aqui.
#[verifier::external_body]
pub(crate) fn para_minusculas(s: &str) -> (r: String)
    ensures
        r@ == minusculas(s@),
        so_ascii(s@) ==> r@ == s@.map_values(|c: char| caixa_baixa_ascii(c)),
{
    s.to_lowercase()
}

/// O texto como `{:?}` o escreve: entre aspas, com os escapes de `str::escape_debug`.
pub uninterp spec fn depurado(s: Seq<char>) -> Seq<char>;

/// `format!("{:?}", s)`. O resultado depende só do texto.
#[verifier::external_body]
pub(crate) fn depurar(s: &str) -> (r: String)
    ensures
        r@ == depurado(s@),
{
    format!("{s:?}")
}

/// Os caracteres que `char::to_lowercase` dá para `c`.
pub uninterp spec fn minusculas_do_char(c: char) -> Seq<char>;

/// `char::to_lowercase`, com o resultado inteiro como texto. O resultado depende só
/// do caractere, pela tabela de caixa do Unicode que acompanha a biblioteca padrão;
/// num caractere ASCII, `A`..`Z` viram `a`..`z` e o resto fica, um caractere só.
/// Fora do ASCII nada é dito aqui.
#[verifier::external_body]
fn para_minusculas_do_char(c: char) -> (r: String)
    ensures
        r@ == minusculas_do_char(c),
        (c as u32) < 128 ==> r@ == seq![caixa_baixa_ascii(c)],
{
    c.to_lowercase().to_string()
}

/// O primeiro caractere de `char::to_lowercase` (o próprio caractere, se ele não
/// desse nenhum).
pub open spec fn minuscula(c: char) -> char {
    if minusculas_do_char(c).len() > 0 {
        minusculas_do_char(c)[0]
    } else {
        c
    }
}

/// `char::to_lowercase`, tomando o primeiro caractere do resultado (para quase todo
/// caractere o resultado tem um só). Num caractere ASCII, `A`..`Z` viram `a`..`z`
/// e o resto fica.
pub fn minuscula_de(c: char) -> (r: char)
    ensures
        r == minuscula(c),
        (c as u32) < 128 ==> r == caixa_baixa_ascii(c),
        (c as u32) < 128 ==> minuscula(c) == caixa_baixa_ascii(c),
{
    let t = para_minusculas_do_char(c);
    let v = caracteres(t.as_str());
    if v.len() > 0 {
        v[0]
    } else {
        c
    }
}

/// `u8::is_ascii_alphanumeric` sobre um caractere.
pub open spec fn e_alfanumerico_ascii(c: char) -> bool {
    ('0' <= c && c <= '9') || ('a' <= c && c <= 'z') || ('A' <= c && c <= 'Z')
}

pub fn alfanumerico_ascii(c: char) -> (r: bool)
    ensures
        r == e_alfanumerico_ascii(c),
{
    ('0' <= c && c <= '9') || ('a' <= c && c <= 'z') || ('A' <= c && c <= 'Z')
}

// ───────────────────────────── números

/// O dígito decimal `d` (`d < 10`).
pub open spec fn digito(d: u64) -> char {
    ((d + 48) as u8) as char
}

/// `n` em decimal, sem zeros à esquerda: o que `format!("{n}")` escreve.
pub open spec fn decimal(n: u64) -> Seq<char>
    decreases n,
{
    if n < 10 {
        seq![digito(n)]
    } else {
        decimal(n / 10).push(digito(n % 10))
    }
}

/// Escreve `n` em decimal no fim de `out`.
pub fn escrever_decimal(n: u64, out: &mut Vec<char>)
    ensures
        final(out)@ == old(out)@ + decimal(n),
    decreases n,
{
    if n >= 10 {
        escrever_decimal(n / 10, out);
    }
    let d: u64 = n % 10;
    out.push(((d + 48) as u8) as char);
    assert(final(out)@ =~= old(out)@ + decimal(n));
}

// ───────────────────────────── cortes

/// As vistas de uma lista de textos.
pub open spec fn vistas(v: Seq<Vec<char>>) -> Seq<Seq<char>> {
    v.map_values(|x: Vec<char>| x@)
}

/// `s.split(c)`: sempre um pedaço a mais que o número de `c`.
pub open spec fn pedacos_por(s: Seq<char>, c: char) -> Seq<Seq<char>>
    decreases s.len(),
{
    if s.len() == 0 {
        seq![seq![]]
    } else if s.last() == c {
        pedacos_por(s.drop_last(), c).push(seq![])
    } else {
        let p = pedacos_por(s.drop_last(), c);
        p.update(p.len() - 1, p.last().push(s.last()))
    }
}

pub proof fn lema_pedacos_por_nao_vazio(s: Seq<char>, c: char)
    ensures
        pedacos_por(s, c).len() >= 1,
    decreases s.len(),
{
    if s.len() > 0 {
        lema_pedacos_por_nao_vazio(s.drop_last(), c);
    }
}

/// `s.split(c)`.
pub fn cortar(s: &[char], c: char) -> (r: Vec<Vec<char>>)
    ensures
        vistas(r@) == pedacos_por(s@, c),
{
    let mut r: Vec<Vec<char>> = Vec::new();
    let mut atual: Vec<char> = Vec::new();
    let mut i: usize = 0;
    proof {
        assert(s@.take(0) =~= Seq::<char>::empty());
        assert(vistas(r@) =~= Seq::<Seq<char>>::empty());
    }
    while i < s.len()
        invariant
            i <= s.len(),
            pedacos_por(s@.take(i as int), c).len() >= 1,
            atual@ == pedacos_por(s@.take(i as int), c).last(),
            vistas(r@) == pedacos_por(s@.take(i as int), c).drop_last(),
        decreases s.len() - i,
    {
        let x = s[i];
        let ghost p = pedacos_por(s@.take(i as int), c);
        proof {
            assert(s@.take(i + 1).drop_last() =~= s@.take(i as int));
            assert(s@.take(i + 1).last() == x);
        }
        if x == c {
            let ghost antes = r@;
            let ghost a = atual@;
            r.push(atual);
            atual = Vec::new();
            proof {
                assert(vistas(r@) =~= vistas(antes).push(a));
                assert(pedacos_por(s@.take(i + 1), c).drop_last() =~= p);
            }
        } else {
            atual.push(x);
            proof {
                assert(pedacos_por(s@.take(i + 1), c).drop_last() =~= p.drop_last());
            }
        }
        i = i + 1;
    }
    let ghost antes = r@;
    let ghost a = atual@;
    r.push(atual);
    proof {
        assert(s@.take(s.len() as int) =~= s@);
        assert(vistas(r@) =~= vistas(antes).push(a));
        assert(pedacos_por(s@, c) =~= pedacos_por(s@, c).drop_last().push(a));
    }
    r
}

/// Acrescenta `v` ao fim de `r`.
pub fn acrescentar_bytes(r: &mut Vec<u8>, v: &[u8])
    ensures
        final(r)@ == old(r)@ + v@,
{
    let mut i: usize = 0;
    while i < v.len()
        invariant
            i <= v@.len(),
            r@ == old(r)@ + v@.take(i as int),
        decreases v.len() - i,
    {
        r.push(v[i]);
        i = i + 1;
        assert(r@ =~= old(r)@ + v@.take(i as int));
    }
    assert(v@.take(v@.len() as int) =~= v@);
}

/// A primeira ocorrência é uma só.
pub proof fn lema_primeira_unica(h: Seq<char>, n: Seq<char>, i: int, j: int)
    requires
        primeira(h, n, i),
        primeira(h, n, j),
    ensures
        i == j,
{
}

/// O texto de bytes como `String::from_utf8_lossy` o lê: cada trecho inválido vira
/// `U+FFFD`.
pub uninterp spec fn utf8_com_perdas(b: Seq<u8>) -> Seq<char>;

/// `String::from_utf8_lossy`. O resultado depende só dos bytes; bytes que já são
/// UTF-8 válido voltam como o texto que codificam.
#[verifier::external_body]
pub(crate) fn de_utf8_com_perdas(b: &[u8]) -> (r: String)
    ensures
        r@ == utf8_com_perdas(b@),
        vstd::utf8::valid_utf8(b@) ==> r@ == vstd::utf8::decode_utf8(b@),
{
    String::from_utf8_lossy(b).into_owned()
}

} // verus!
