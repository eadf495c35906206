use ssa_builder::itype::IType;
use ssa_builder::parser::Parser;


#[test]
fn basic_var_assignment() {
    let input = b"
    main
    var x;
    {
        let x <- 10
    }
    .
    ";
    let mut parser = Parser::new(&input[..]);

    parser.computation();

    assert_eq!(parser.insts().get(0).itype(), IType::Const(10));
    assert_eq!(parser.blocks().get(1).get_var_inst(3).unwrap(), 0);

    assert_eq!(parser.insts().get(2).itype(), IType::End);
    assert_eq!(parser.blocks().get(1).get_last_inst().unwrap(), 2);

    let graph = parser.generate_graph();
    assert!(graph.starts_with("digraph G {"));
}

#[test]
fn multiple_vars() {
    let input = b"
    main
    var x, y;
    {
        let x <- 10;
        let y <- 12
    }
    .
    ";
    let mut parser = Parser::new(&input[..]);

    parser.computation();

    assert_eq!(parser.insts().get(0).itype(), IType::Const(10));
    assert_eq!(parser.blocks().get(1).get_var_inst(3).unwrap(), 0);

    assert_eq!(parser.insts().get(2).itype(), IType::Const(12));
    assert_eq!(parser.blocks().get(1).get_var_inst(4).unwrap(), 2);

    let graph = parser.generate_graph();
    assert!(graph.starts_with("digraph G {"));
}

#[test]
fn uninitialized_var() {
    let input = b"
    main
    var x, y;
    {
        let x <- y;
    }
    .
    ";
    let mut parser = Parser::new(&input[..]);

    parser.computation();

    assert_eq!(parser.insts().get(0).itype(), IType::Const(0));
    assert_eq!(parser.blocks().get(1).get_var_inst(3).unwrap(), 0);
    assert_eq!(parser.blocks().get(1).get_var_inst(4).unwrap(), 0);
}

#[test]
fn func_call() {
    let input = b"
    main
    {
        call InputNum();
        call InputNum
    }
    .
    ";
    let mut parser = Parser::new(&input[..]);

    parser.computation();

    assert_eq!(parser.insts().get(0).itype(), IType::Read);
    assert_eq!(parser.insts().get(1).itype(), IType::Read);
}

#[test]
fn arithmetic() {
    let input = b"
    main
    var x, y, z, w, h;
    {
        let x <- 1;
        let y <- 2;
        let z <- 3;
        let w <- 4;
        let h <- x * (z - w / y);
    }
    .
    ";
    let mut parser = Parser::new(&input[..]);

    parser.computation();

    assert_eq!(parser.insts().get(0).itype(), IType::Const(1));
    assert_eq!(parser.blocks().get(1).get_var_inst(3).unwrap(), 0);

    assert_eq!(parser.insts().get(2).itype(), IType::Const(2));
    assert_eq!(parser.blocks().get(1).get_var_inst(4).unwrap(), 2);

    assert_eq!(parser.insts().get(4).itype(), IType::Const(3));
    assert_eq!(parser.blocks().get(1).get_var_inst(5).unwrap(), 4);

    assert_eq!(parser.insts().get(6).itype(), IType::Const(4));
    assert_eq!(parser.blocks().get(1).get_var_inst(6).unwrap(), 6);

    assert!(matches!(parser.insts().get(8).itype(), IType::Div { .. }));
    assert!(matches!(parser.insts().get(9).itype(), IType::Sub { .. }));
    assert!(matches!(parser.insts().get(10).itype(), IType::Mul { .. }));
    assert_eq!(parser.blocks().get(1).get_var_inst(7).unwrap(), 10);

    let graph = parser.generate_graph();
    assert!(graph.starts_with("digraph G {"));
}

#[test]
fn basic_if_else() {
    let input = b"
    main
    var a, b, c, d, e;
    {
        let a <- call InputNum();
        let b <- a;
        let c <- b;
        let d <- b + c;
        let e <- a + b;
        if a < 0 then
            let a <- d + e;
        else
            let d <- e + 1;
        fi;
        call OutputNum(a);
        call OutputNum(d);
    }
    .
    ";
    let mut parser = Parser::new(&input[..]);

    parser.computation();


    let graph = parser.generate_graph();
    assert!(graph.starts_with("digraph G {"));
}

#[test]
fn basic_while() {
    let input = b"
    main
    var x, y, i, j;
    {
        let i <- call InputNum();
        let x <- 0;
        let y <- 0;
        let j <- i;

        while x < 10
        do
            let x <- i + 1;
            let y <- j + 1;
            let i <- i + 1;
        od;

        call OutputNum(x);
        call OutputNum(y);
        call OutputNum(i);
        call OutputNum(j);
    }
    .
";
    let mut parser = Parser::new(&input[..]);

    parser.computation();

    let graph = parser.generate_graph();
    assert!(graph.starts_with("digraph G {"));
}

#[test]
fn nested_while() {
    let input = b"
    main
    var x, y, i, j;
    {
        let i <- call InputNum();
        let x <- 0;
        let y <- 0;
        let j <- i;

        while x < 10
        do
            let x <- x + 1;
            let y <- j + 1;

            while j < 10
            do
                let x <- j + 1;
                let y <- i + 1;
                let j <- i + 1;
            od;

            let i <- i + 1;
        od;

        call OutputNum(x);
    }
    .
    ";
    let mut parser = Parser::new(&input[..]);

    parser.computation();

    let graph = parser.generate_graph();
    assert!(graph.starts_with("digraph G {"));
}

#[test]
fn nested_while2() {
    let input = b"
    main
    var x, y, i, j;
    {
        let i <- call InputNum();
        let x <- 0;
        let y <- 0;
        let j <- i;

        while x < 10
        do
            let x <- i + 1;
            let y <- j + 1;

            while j < 10
            do
                let x <- j + 1;
                let y <- i + 1;
                let j <- j + 1;
            od;

            let i <- i + 1;
        od;

        call OutputNum(x);
    }
    .
";
    let mut parser = Parser::new(&input[..]);

    parser.computation();

    let graph = parser.generate_graph();
    assert!(graph.starts_with("digraph G {"));
}

#[test]
fn nested_while_if() {
    let input = b"
    main
    var i;
    {
        let i <- 0;
        while i < 10 do
            let i <- i + 1;
            if i == 2 then
                let i <- i + 1
            fi
        od;
        call OutputNum(i)
    }
    .
";
    let mut parser = Parser::new(&input[..]);

    parser.computation();

    let graph = parser.generate_graph();
    assert!(graph.starts_with("digraph G {"));
}

#[test]
fn nested_if_while() {
    let input = b"
    main
    var i;
    {
        let i <- 0;
        if i == 2 then
            while i < 10 do
                let i <- i + 1;
                let i <- i + 1
            od;
        fi;
        call OutputNum(i)
    }
    .
";
    let mut parser = Parser::new(&input[..]);

    parser.computation();

    let graph = parser.generate_graph();
    assert!(graph.starts_with("digraph G {"));
}

#[test]
fn nested_big() {
    let input = b"
main
var x,k,j,m;
{
let x <- call InputNum();
let k <- call InputNum();
while x < 10 do
    let j <- 0;
    let m <- 0;

    let x <- x + 1;
    if k > 5 then
        while j < 15 do
            let j <- j + 1;
        od;
        let k <- 0;
    else
        let k <- k + 1;
        while m < 20 do
            let m <- m * 2;
        od;
    fi;
od;
call OutputNum(x);
call OutputNum(k);
}
.
";
    let mut parser = Parser::new(&input[..]);

    parser.computation();

    let graph = parser.generate_graph();
    assert!(graph.starts_with("digraph G {"));
}

#[test]
fn nested_ifs() {
    let input = b"
main
var a, b;
{
    let a <- call InputNum();
    let b <- call InputNum();
    if a > 0 then
        if b > 0 then
            call OutputNum(0)
        else
            call OutputNum(1)
        fi
    else
        if b > 0 then
            call OutputNum(1)
        else
            call OutputNum(0)
        fi
    fi
}.
";
    let mut parser = Parser::new(&input[..]);

    parser.computation();

    let graph = parser.generate_graph();
    assert!(graph.starts_with("digraph G {"));
}

#[test]
fn test_cse() {
    let input = b"
main
var a,b,c,d,e;
{
    let a <- call InputNum();
    let b <- a;
    let c <- b;
    let d <- b + c;
    let e <- a + b;
    if a < 0 then
        let d <-  d + e;
        let a <- d
    else
        let d <- e
    fi;
    call OutputNum(a)
}.
";
    let mut parser = Parser::new(&input[..]);

    parser.computation();

    let graph = parser.generate_graph();
    assert!(graph.starts_with("digraph G {"));
}

#[test]
fn copy_loop() {
    let input = b"
main
var fa, fb, n, t;
{
    let fa <- 0;
    let fb <- 1;
    let t <- fa + fb;
    let n <- call InputNum();
    let t <- n - 1;
    while n > 0 do
        let t <- fb;
        let fb <- fa + fb;
        let fa <- t;
        let n <- n - 1;
    od;
    call OutputNum(fa);
    call OutputNewLine();
}
.";
    let mut parser = Parser::new(&input[..]);

    parser.computation();

    let graph = parser.generate_graph();
    assert!(graph.starts_with("digraph G {"));
}

#[test]
fn complex_phi() {
    let input = b"
main
var x,k,j,m;
{
let x <- call InputNum;
let k <- call InputNum();
while x < 10 do
    let j <- 0;
    let m <- 1;

    let x <- x + 1;
    call OutputNum(111);
    call OutputNewLine();
    if k > 5 then
        while j < 15 do
            let j <- j + k;
            while m < 20 do
                let k <- k * 1;
                let m <- m + 1
            od
        od;
        let k <- k - 1;
        call OutputNum(k);
        call OutputNewLine
    else
        while m < 20 do
            let m <- m + k
        od;
        let k <- k + 1;
        call OutputNum(k);
        call OutputNewLine
    fi;
    call OutputNum(k);
    call OutputNewLine
od;
call OutputNum(x);
call OutputNewLine;
call OutputNum(k);
call OutputNewLine
}
.
";
    let mut parser = Parser::new(&input[..]);

    parser.computation();

    let graph = parser.generate_graph();
    assert!(graph.starts_with("digraph G {"));
}

#[test]
fn complex_if() {
    let input = b"
main
var a, b, sum, i, j;
{
    let a <- call InputNum();
    let b <- call InputNum();
    let sum <- 0;
    let i <- 1;
    while i <= a do
        let j <- 1;
        while j <= b do
            if i * j == 3 then
                let sum <- sum + i * j;
            fi;
            if i * j == 6 then
                let sum <- sum + i * j;
            fi;
            if i * j == 9 then
                let sum <- sum + i * j;
            fi;
            let j <- j + 1;
        od;
        let i <- i + 1;
    od;
    call OutputNum(sum);
}
.
";
    let mut parser = Parser::new(&input[..]);

    parser.computation();

    let graph = parser.generate_graph();
    assert!(graph.starts_with("digraph G {"));
}

#[test]
fn basic_func() {
    let input = b"
main
var x;

function add(a, b); {
    return a + b
};

void function println(n); {
    call OutputNum(n);
    call OutputNewLine
};

{
    let x <- call add(1, 1);
    call println(x)
}
.
";
    let mut parser = Parser::new(&input[..]);

    parser.computation();

    let graph = parser.generate_graph();
    assert!(graph.starts_with("digraph G {"));
}

#[test]
fn fib() {
    let input = b"
main
var x;

function fibonacci(n); {
    if n <= 1 then
        return n
    fi;
    return call fibonacci(n - 1) + call fibonacci(n - 2)
};

{
    let x <- call InputNum;
    let x <- call fibonacci(x);
    call OutputNum(x);
    call OutputNewLine
}
.
";
    let mut parser = Parser::new(&input[..]);

    parser.computation();

    let graph = parser.generate_graph();
    assert!(graph.starts_with("digraph G {"));
}

#[test]
fn complex_func() {
    let input = b"
main
var a, six, g, red;


function retfunc(x);
{

    return x;
};

void function emptyfunc();
var trippy, ball, count;
{

    let trippy <- 25;
    if 10 > 3 then
    let trippy <- 40;
    let ball <- 30;
    else
    let ball <- 4;
    fi;

    let count <- 0;
    while count <= 5 do
    let count <- count + 1;
    od;


let count <- 0;
    while count <= 5 do
    let count <- count + 1;
    od;

};




{
let red <- 12;




call emptyfunc();


let a <- 900;

let six <- call retfunc(9);

let g <- call retfunc(9 + 9);





}
.
";
    let mut parser = Parser::new(&input[..]);

    parser.computation();

    let graph = parser.generate_graph();
    assert!(graph.starts_with("digraph G {"));
}

#[test]
fn func_gcd() {
    let input = b"
main
function mod(x,y); {
    if y == 0 then
        return x;
    fi;
    while x < 0 do
        let x <- x + y;
    od;
    while x >= y do
        let x <- x - y;
    od;
    return x;
};
function gcd(x,y); {
    if x == 0 then
        return y;
    fi;
    return call gcd(y, call mod(x,y));
};
{
    call OutputNum(call gcd(110,121));
    call OutputNewLine();
}
.
";
    let mut parser = Parser::new(&input[..]);

    parser.computation();

    let graph = parser.generate_graph();
    assert!(graph.starts_with("digraph G {"));
}

#[test]
fn func_mandlebrot() {
    let input = b"
main
var px, py, mval;

function mandelbrot(x,y);
var iters, x2, go,x0,y0; 
{
    let x0 <- x;
    let y0 <- y;
    let iters <- 0;
    let go <- 1;
    while go != 0 do
        if x*x+y*y > 4*10000*10000 then
            let go <- 0;
        fi;
        if iters >= 100 then
            let go <- 0;
        fi;
        if go != 0 then
            let x2 <- (x*x-y*y)/10000 + x0;
            let y <- (2*x*y)/10000 + y0;
            let x <- x2;
            let iters <- iters+1;
        fi;
    od;

    return iters;
};


{
    let px <- 0;
    let py <- 0;
    while py < 200 do
        let px <- 0;
        while px < 200 do
            let mval <- call mandelbrot( ((px-100)*4*10000)/200, ((py-100)*4*10000)/200);
            if mval == 100 then
                call OutputNum(8);
            else
                call OutputNum(1);
            fi;
            let px <- px + 1;
        od;
        let py <- py + 1;
        call OutputNewLine();
    od;


}
.
";
    let mut parser = Parser::new(&input[..]);

    parser.computation();

    let graph = parser.generate_graph();
    assert!(graph.starts_with("digraph G {"));
}

#[test]
fn triple_while() {
    let input = b"
main
var count, i, j, k, ilim, jlim, klim;
{
    let ilim <- call InputNum();
    let jlim <- call InputNum();
    let klim <- call InputNum();

    let count <- 0;
    let i <- 0;
    while i < ilim do
        let j <- 0;

        while j < jlim do
            let k <- 0;

            while k < klim do
                let k <- k + 1;

                if (i + j + k) / 100 < 50 then
                    let count <- count + 1;
                fi;
            od;

            let j <- j + 1;
        od;

        let i <- i + 1;
    od;

    call OutputNum(count);
}
.
";
    let mut parser = Parser::new(&input[..]);

    parser.computation();

    let graph = parser.generate_graph();
    assert!(graph.starts_with("digraph G {"));
}

#[test]
fn func_triple_while() {
    let input = b"
main

void function loop(ilim, jlim, klim);
var count, i, j, k;
{
    let count <- 0;
    let i <- 0;
    while i < ilim do
        let j <- 0;

        while j < jlim do
            let k <- 0;

            while k < klim do
                let k <- k + 1;

                if (i + j + k) / 100 < 50 then
                    let count <- count + 1;
                fi;
            od;

            let j <- j + 1;
        od;

        let i <- i + 1;
    od;

    call OutputNum(count);
};

{
    call loop(100, 200, 300);
}
.
";
    let mut parser = Parser::new(&input[..]);

    parser.computation();

    let graph = parser.generate_graph();
    assert!(graph.starts_with("digraph G {"));
}

