//! The page that shows the status in a browser.
use vstd::prelude::*;

verus! {

/// A page that asks for the status every few seconds and draws it.
pub const DASHBOARD_HTML: &'static str = r#"<!DOCTYPE html>
<html>
<head>
    <meta charset="utf-8">
    <title>UDP Balancer</title>
    <style>
        *{box-sizing:border-box;margin:0;padding:0}
        body{font-family:monospace;font-size:12px;background:#f5f5f5;color:#333;padding:10px}
        .hdr{display:flex;justify-content:space-between;align-items:center;margin-bottom:10px;padding-bottom:6px;border-bottom:1px solid #999}
        .hdr h1{font-size:14px}
        .hdr .ver{color:#666;font-size:11px}
        .ctrl{display:flex;align-items:center;gap:10px}
        btn,button{font-family:monospace;font-size:11px;padding:2px 8px;cursor:pointer;background:#ddd;border:1px solid #999}
        .upd{font-size:10px;color:#888}
        .err{background:#fcc;padding:6px;margin-bottom:8px;border:1px solid #c00;font-size:11px}
        .sec{background:#fff;border:1px solid #ccc;margin-bottom:10px}
        .sec-h{background:#e0e0e0;padding:6px 8px;font-weight:bold;font-size:11px;border-bottom:1px solid #ccc}
        .sec-c{padding:8px}
        table{width:100%;border-collapse:collapse;font-size:11px}
        th,td{text-align:left;padding:4px 6px;border:1px solid #ddd}
        th{background:#f0f0f0}
        tbody tr:nth-child(odd){background:#f9f9f9}
        tbody tr:hover{background:#e8f4fc}
        .r{text-align:right}
        .ok{background:#cfc}
        .fail{background:#fcc}
        .muted{color:#888}
        .tag{display:inline-block;padding:1px 4px;background:#e0e0e0;border-radius:2px;font-size:10px;margin-left:6px}
        .subsec{margin-top:8px}
        .subsec-h{font-weight:bold;font-size:10px;color:#666;margin-bottom:4px}
    </style>
</head>
<body>
    <div class="hdr">
        <h1>UDP Balancer <span class="ver">v<span id="ver"></span></span></h1>
        <div class="ctrl">
            <button onclick="toggle()">Pause</button>
            <span class="upd"><span id="upd">-</span></span>
        </div>
    </div>
    <div id="err"></div>
    <div id="out"></div>
    <script>
        let p=false;
        function toggle(){p=!p;document.querySelector('button').textContent=p?'Resume':'Pause';if(!p)load()}
        function fmt(n){if(n>=1e9)return(n/1e9).toFixed(1)+'G';if(n>=1e6)return(n/1e6).toFixed(1)+'M';if(n>=1e3)return(n/1e3).toFixed(1)+'K';return n}
        async function load(){
            if(p)return;
            try{
                const r=await fetch('/api/v1/status');
                if(!r.ok)throw new Error('HTTP '+r.status);
                const d=await r.json();
                render(d);
                document.getElementById('upd').textContent=new Date().toLocaleTimeString();
                document.getElementById('err').innerHTML='';
            }catch(e){
                document.getElementById('err').innerHTML='<div class="err">'+e.message+'</div>';
            }
        }
        function render(d){
            document.getElementById('ver').textContent=d.version;
            let h='';
            if(d.servers.length===0){
                h+='<div class="sec"><div class="sec-h">Listeners</div><div class="sec-c muted">None</div></div>';
            }else{
                d.servers.forEach(s=>{
                    let algoTag=s.algorithm?'<span class="tag">'+s.algorithm.toUpperCase()+(s.hash_key&&s.hash_key.length?'<span style="font-weight:normal">('+s.hash_key.join(', ')+')</span>':'')+'</span>':'';
                    h+='<div class="sec"><div class="sec-h">'+esc(s.listener)+algoTag+' <span style="font-weight:normal;color:#666">[RX: '+fmt(s.stats.rx_packets)+' pkts / '+fmt(s.stats.rx_bytes)+' B | TX: '+fmt(s.stats.tx_packets)+' pkts / '+fmt(s.stats.tx_bytes)+' B]</span></div>';
                    h+='<div class="sec-c">';
                    if(s.backends && s.backends.length>0){
                        h+='<div class="subsec"><div class="subsec-h">Backends</div>';
                        h+='<table><thead><tr><th>Address</th><th class="r">Wt</th><th class="r">TX pkts</th><th class="r">TX bytes</th><th class="r">RX pkts</th><th class="r">RX bytes</th><th class="r">Failed</th><th>Status</th></tr></thead><tbody>';
                        s.backends.forEach(b=>{
                            const cls=b.alive?'ok':'fail',lbl=b.alive?'UP':'DOWN';
                            h+='<tr><td>'+esc(b.address)+'</td><td class="r">'+b.weight.toFixed(1)+'</td>';
                            h+='<td class="r">'+fmt(b.stats.tx_packets)+'</td><td class="r">'+fmt(b.stats.tx_bytes)+'</td>';
                            h+='<td class="r">'+fmt(b.stats.rx_packets)+'</td><td class="r">'+fmt(b.stats.rx_bytes)+'</td>';
                            h+='<td class="r">'+(b.stats.tx_failed>0?'<b style="color:#c00">'+fmt(b.stats.tx_failed)+'</b>':'0')+'</td>';
                            h+='<td class="'+cls+'">'+lbl+'</td></tr>';
                        });
                        h+='</tbody></table></div>';
                    }
                    if(s.mirrors && s.mirrors.length>0){
                        h+='<div class="subsec"><div class="subsec-h">Mirrors</div>';
                        h+='<table><thead><tr><th>Address</th><th class="r">Prob</th><th class="r">TX pkts</th><th class="r">TX bytes</th><th class="r">Failed</th></tr></thead><tbody>';
                        s.mirrors.forEach(m=>{
                            h+='<tr><td>'+esc(m.address)+'</td><td class="r">'+(m.probability*100).toFixed(0)+'%</td>';
                            h+='<td class="r">'+fmt(m.stats.tx_packets)+'</td><td class="r">'+fmt(m.stats.tx_bytes)+'</td>';
                            h+='<td class="r">'+(m.stats.tx_failed>0?'<b style="color:#c00">'+fmt(m.stats.tx_failed)+'</b>':'0')+'</td></tr>';
                        });
                        h+='</tbody></table></div>';
                    }
                    if((!s.backends||s.backends.length===0)&&(!s.mirrors||s.mirrors.length===0)){
                        h+='<span class="muted">No backends or mirrors</span>';
                    }
                    h+='</div></div>';
                });
            }
            document.getElementById('out').innerHTML=h;
        }
        function esc(t){const d=document.createElement('div');d.textContent=t;return d.innerHTML}
        load();setInterval(load,5000);
    </script>
</body>
</html>
"#;

/// The page.
pub fn dashboard_handler() -> (page: &'static str)
    ensures
        page@ == DASHBOARD_HTML@,
{
    DASHBOARD_HTML
}

} // verus!
